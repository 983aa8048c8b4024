//! The handlers of the server that speaks of files and attributes.
//!
//! A handler is a function of the request and of what the file system gave back
//! so far. It says what has to be done next, or what is answered.

use vstd::prelude::*;
use vstd::string::*;

use crate::bytes::{law_adjacent_writes, law_write_then_read, slice, spliced};
use crate::disk::{begun, left, took_in, OpenFile};
use crate::range::{
    answer_range, byte_range, content_span, law_range_selects, parse_content_range, parse_range, read_window,
    render_answer_range, select_range, selected, window, RangeFault,
};
use crate::reply::{
    bare, bare_reply, cause, cause_reply, does, fs_error_json, fs_status, locate, located,
    outcome, outcome_reply, says, succeeds, words, words_reply, ApiResponse, Content, Deed,
    DirEntry, FsErrorKind, ListResponse, Next, Place, Probe, Response,
};
use crate::text::owned;

verus! {

/// What the server serves.
#[derive(Debug)]
pub struct AppState {
    pub root_dir: String,
    /// Whether the server runs on Windows.
    pub windows: bool,
}

/// What a renaming request carries.
#[derive(Debug)]
pub struct RenameRequest {
    pub from: String,
    pub to: String,
}

/// What a request for new attributes carries.
#[derive(Debug)]
pub struct SetAttrsRequest {
    pub mode: Option<u32>,
}

/// An entry of a directory as the file system tells of it. The times are the bit
/// patterns of floating-point seconds since the epoch. The permission bits are
/// known on some systems only.
#[derive(Debug)]
pub struct FoundEntry {
    pub name: String,
    pub is_dir: bool,
    pub size: u64,
    pub modified: Option<u64>,
    pub created: Option<u64>,
    pub unix_mode: Option<u32>,
    pub readonly: bool,
}

/// The first instant at which no date of an answer can be written any more, in
/// seconds since the epoch: the beginning of the year ten thousand.
pub const DATE_LIMIT: u64 = 253_402_300_800;

/// The text that `httpdate` gives for an instant, in seconds since the epoch.
pub uninterp spec fn http_date_text(secs: u64) -> Seq<char>;

/// `httpdate::fmt_http_date` on the instant `secs` seconds after the epoch: its
/// text depends on the instant alone, and there is one for every instant before
/// the year ten thousand.
#[verifier::external_body]
fn http_date(secs: u64) -> (s: String)
    requires
        secs < DATE_LIMIT,
    ensures
        s@ == http_date_text(secs),
{
    httpdate::fmt_http_date(std::time::UNIX_EPOCH + std::time::Duration::from_secs(secs))
}

/// The permission bits to show: those of the file where the system knows them,
/// and otherwise bits that say whether it can be written.
pub open spec fn shown_mode(unix_mode: Option<u32>, readonly: bool) -> u32 {
    match unix_mode {
        Some(mode) => mode,
        None => if readonly {
            0o555
        } else {
            0o666
        },
    }
}

/// The permission bits to show.
pub fn permissions_mode(unix_mode: Option<u32>, readonly: bool) -> (mode: u32)
    ensures
        mode == shown_mode(unix_mode, readonly),
        unix_mode matches Some(m) ==> mode == m,
        unix_mode is None && readonly ==> mode & 0o222 == 0 && mode & 0o444 == 0o444,
        unix_mode is None && !readonly ==> mode & 0o222 == 0o222 && mode & 0o444 == 0o444,
{
    assert(0o555u32 & 0o222 == 0 && 0o555u32 & 0o444 == 0o444) by (bit_vector);
    assert(0o666u32 & 0o222 == 0o222 && 0o666u32 & 0o444 == 0o444) by (bit_vector);
    match unix_mode {
        Some(mode) => mode,
        None => if readonly {
            0o555
        } else {
            0o666
        },
    }
}

/// Whether a file with these permission bits is read-only on a system that knows
/// nothing finer: nobody may write it.
pub fn set_permissions_mode(mode: u32) -> (readonly: bool)
    ensures
        readonly == (mode & 0o222 == 0),
{
    let writable = (mode & 0o222) != 0;
    !writable
}

/// How an entry is shown. A time of change that is not known is the epoch; a
/// time of creation that is not known is the time of change.
pub open spec fn shown_entry(e: FoundEntry) -> DirEntry {
    let mtime = match e.modified {
        Some(t) => t,
        None => 0,
    };
    DirEntry {
        name: e.name,
        is_dir: e.is_dir,
        size: e.size,
        mtime,
        ctime: match e.created {
            Some(t) => t,
            None => mtime,
        },
        mode: shown_mode(e.unix_mode, e.readonly),
    }
}

/// How a directory is shown: its entries in order, without those that could not
/// be read.
pub open spec fn shown(found: Seq<Option<FoundEntry>>) -> Seq<DirEntry>
    decreases found.len(),
{
    if found.len() == 0 {
        Seq::empty()
    } else {
        let before = shown(found.drop_last());
        match found.last() {
            Some(e) => before.push(shown_entry(e)),
            None => before,
        }
    }
}

/// How a directory is shown.
fn show(found: &Vec<Option<FoundEntry>>) -> (entries: Vec<DirEntry>)
    ensures
        entries@ == shown(found@),
{
    let mut entries: Vec<DirEntry> = Vec::new();
    assert(found@.take(0) =~= Seq::<Option<FoundEntry>>::empty());
    for i in 0..found.len()
        invariant
            entries@ == shown(found@.take(i as int)),
    {
        assert(found@.take(i as int + 1).drop_last() =~= found@.take(i as int));
        match &found[i] {
            Some(e) => {
                let mtime: u64 = match e.modified {
                    Some(t) => t,
                    None => 0,
                };
                let ctime: u64 = match e.created {
                    Some(t) => t,
                    None => mtime,
                };
                entries.push(
                    DirEntry {
                        name: e.name.clone(),
                        is_dir: e.is_dir,
                        size: e.size,
                        mtime,
                        ctime,
                        mode: permissions_mode(e.unix_mode, e.readonly),
                    },
                );
            },
            None => {},
        }
    }
    assert(found@.take(found@.len() as int) =~= found@);
    entries
}

/// What the server says of itself.
#[derive(Debug)]
pub struct Index {
    pub name: String,
    pub version: String,
    pub endpoints: Vec<String>,
}

/// What the server says of itself.
pub fn index() -> (r: Index)
    ensures
        r.name@ == "Remote File System Server (Rust)"@,
        r.version@ == "1.0.0"@,
        r.endpoints@.len() == 7,
        r.endpoints@[0]@ == "GET /list/{path}"@,
        r.endpoints@[1]@ == "GET /files/{path}"@,
        r.endpoints@[2]@ == "PUT /files/{path}"@,
        r.endpoints@[3]@ == "PATCH /files/{path}"@,
        r.endpoints@[4]@ == "POST /mkdir/{path}"@,
        r.endpoints@[5]@ == "DELETE /files/{path}"@,
        r.endpoints@[6]@ == "HEAD /files/{path}"@,
{
    let mut endpoints: Vec<String> = Vec::new();
    endpoints.push(owned("GET /list/{path}"));
    endpoints.push(owned("GET /files/{path}"));
    endpoints.push(owned("PUT /files/{path}"));
    endpoints.push(owned("PATCH /files/{path}"));
    endpoints.push(owned("POST /mkdir/{path}"));
    endpoints.push(owned("DELETE /files/{path}"));
    endpoints.push(owned("HEAD /files/{path}"));
    Index {
        name: owned("Remote File System Server (Rust)"),
        version: owned("1.0.0"),
        endpoints,
    }
}

/// The answer that all is well.
pub fn health() -> (r: Response)
    ensures
        r.status == 200,
        r.content_range is None,
        r.content matches Content::Outcome(a) && a.success && a.bytes_written is None
            && (a.message matches Some(m) && m@ == "ok"@),
{
    Response {
        status: 200,
        content_range: None,
        content: Content::Outcome(
            ApiResponse { success: true, message: Some(owned("ok")), bytes_written: None },
        ),
    }
}

/// Lists a directory. `probe` says what stands there, `found` what reading it
/// gave: `None` for a directory that could not be read.
pub fn list_directory(
    state: &AppState,
    path: &str,
    place: &Place,
    probe: Option<Probe>,
    found: Option<Option<Vec<Option<FoundEntry>>>>,
) -> (next: Next)
    ensures
        match located(state.root_dir@, path@, *place, state.windows) {
            None => says(next, 400, "Invalid path"@),
            Some(full) => match probe {
                None => does(next, full, Deed::Look),
                Some(p) => if !p.exists {
                    says(next, 404, "Directory not found"@)
                } else if !p.is_dir {
                    says(next, 400, "Not a directory"@)
                } else {
                    match found {
                        None => does(next, full, Deed::List),
                        Some(None) => says(next, 500, "Failed to read directory"@),
                        Some(Some(all)) => next matches Next::Reply(r) && r.status == 200
                            && r.content_range is None && (r.content matches Content::Listing(l)
                            && l.entries@ == shown(all@)),
                    }
                },
            },
        },
        next matches Next::Reply(r) ==> (r.content matches Content::Listing(l) ==> (
        found matches Some(Some(all)) && l.entries@.len() == readable(all@) && forall|k: int|
            0 <= k < all@.len() ==> (#[trigger] all@[k] matches Some(e) ==> {
                let d = l.entries@[readable(all@.take(k)) as int];
                &&& readable(all@.take(k)) < l.entries@.len()
                &&& d.name@ == e.name@
                &&& d.is_dir == e.is_dir
                &&& d.size == e.size
                &&& e.modified matches Some(t) ==> d.mtime == t
                &&& e.created matches Some(t) ==> d.ctime == t
                &&& e.unix_mode matches Some(m) ==> d.mode == m
            }))),
        (next matches Next::Reply(r) && r.status / 100 == 2) <==> (located(state.root_dir@, path@, *place, state.windows) is Some && (probe matches Some(q) && q.exists && q.is_dir)
            && (found matches Some(Some(_)))),
        (next matches Next::Reply(r) && r.status == 404) <==> (located(state.root_dir@, path@, *place, state.windows) is Some && (probe matches Some(q) && !q.exists)),
        next matches Next::Do { path: at, .. } ==> located(state.root_dir@, path@, *place, state.windows)
            == Some(at@),
        located(state.root_dir@, path@, *place, state.windows) is None ==> (next matches Next::Reply(r)
            && r.status == 400),
        next matches Next::Reply(r) ==> (r.content matches Content::Listing(l) ==> (found matches Some(
            Some(all),
        ) ==> forall|k: int|
            0 <= k < all@.len() ==> (#[trigger] all@[k] matches Some(e) ==> {
                let d = l.entries@[readable(all@.take(k)) as int];
                &&& e.modified is None ==> d.mtime == 0
                &&& e.created is None ==> d.ctime == d.mtime
                &&& e.unix_mode is None && e.readonly ==> d.mode & 0o222 == 0
                &&& e.unix_mode is None && !e.readonly ==> d.mode & 0o222 == 0o222
            }))),
{
    let full = match locate(state.root_dir.as_str(), path, place, state.windows) {
        Some(p) => p,
        None => {
            return Next::Reply(words_reply(400, "Invalid path"));
        },
    };
    let p = match probe {
        Some(p) => p,
        None => {
            return Next::Do { path: full, deed: Deed::Look };
        },
    };
    if !p.exists {
        return Next::Reply(words_reply(404, "Directory not found"));
    }
    if !p.is_dir {
        return Next::Reply(words_reply(400, "Not a directory"));
    }
    match found {
        None => Next::Do { path: full, deed: Deed::List },
        Some(None) => Next::Reply(words_reply(500, "Failed to read directory")),
        Some(Some(all)) => {
            proof {
                law_listing(all@);
                law_shown_mode(0, true);
                law_shown_mode(0, false);
            }
            Next::Reply(
                Response {
                    status: 200,
                    content_range: None,
                    content: Content::Listing(ListResponse { entries: show(&all) }),
                },
            )
        },
    }
}

/// The step of a read of a range of the file at `full`.
pub open spec fn range_read(
    full: Seq<char>,
    start: nat,
    end: Option<nat>,
    opened: Option<Result<u64, FsErrorKind>>,
    read: Option<Result<Vec<u8>, FsErrorKind>>,
    next: Next,
) -> bool {
    match opened {
        None => does(next, full, Deed::OpenRead),
        Some(Err(kind)) => next matches Next::Reply(r) && cause(r, broken_status(kind)),
        Some(Ok(len)) => match selected(start, end, len as nat) {
            None => next matches Next::Reply(r) && bare(r, 416),
            Some((s, e)) => match read {
                None => does(
                    next,
                    full,
                    Deed::ReadAt { start: s as u64, len: (e - s + 1) as u64 },
                ),
                Some(Err(kind)) => next matches Next::Reply(r) && cause(r, broken_status(kind)),
                Some(Ok(bytes)) => next matches Next::Reply(r) && r.status == 206
                    && (r.content_range matches Some(h) && h@ == answer_range(s, e, len as nat))
                    && r.content == Content::Octets(bytes),
            },
        },
    }
}

/// The status for a failure of the file system that is passed on as it is.
pub open spec fn broken_status(kind: FsErrorKind) -> u16 {
    match kind {
        FsErrorKind::NotFound => 404,
        FsErrorKind::PermissionDenied => 403,
        _ => 500,
    }
}

/// The answer to a failure of the file system that is passed on as it is.
fn broken(kind: FsErrorKind) -> (r: Response)
    ensures
        cause(r, broken_status(kind)),
{
    match kind {
        FsErrorKind::NotFound => cause_reply(404),
        FsErrorKind::PermissionDenied => cause_reply(403),
        _ => cause_reply(500),
    }
}

/// Reads a range of the file at `full`.
fn handle_range_request(
    full: String,
    start: u64,
    end: Option<u64>,
    opened: Option<Result<u64, FsErrorKind>>,
    read: Option<Result<Vec<u8>, FsErrorKind>>,
) -> (next: Next)
    requires
        opened matches Some(Ok(len)) ==> len > 0,
    ensures
        range_read(
            full@,
            start as nat,
            match end {
                Some(e) => Some(e as nat),
                None => None,
            },
            opened,
            read,
            next,
        ),
{
    let len: u64 = match opened {
        None => {
            return Next::Do { path: full, deed: Deed::OpenRead };
        },
        Some(Err(kind)) => {
            return Next::Reply(broken(kind));
        },
        Some(Ok(len)) => len,
    };
    match select_range(start, end, len) {
        None => Next::Reply(bare_reply(416)),
        Some((s, e)) => match read {
            None => Next::Do { path: full, deed: Deed::ReadAt { start: s, len: e - s + 1 } },
            Some(Err(kind)) => Next::Reply(broken(kind)),
            Some(Ok(bytes)) => Next::Reply(
                Response {
                    status: 206,
                    content_range: Some(render_answer_range(s, e, len)),
                    content: Content::Octets(bytes),
                },
            ),
        },
    }
}

/// The step of a read of a part of the file at `full`.
pub open spec fn part_read(
    full: Seq<char>,
    offset: Option<u64>,
    size: Option<u64>,
    opened: Option<Result<u64, FsErrorKind>>,
    read: Option<Result<Vec<u8>, FsErrorKind>>,
    next: Next,
) -> bool {
    match opened {
        None => does(next, full, Deed::OpenRead),
        Some(Err(_)) => says(next, 500, "Failed to read file"@),
        Some(Ok(len)) => match read {
            None => does(
                next,
                full,
                Deed::ReadAt {
                    start: window(offset, size, len as nat).0 as u64,
                    len: window(offset, size, len as nat).1 as u64,
                },
            ),
            Some(Err(_)) => says(next, 500, "Failed to read file"@),
            Some(Ok(bytes)) => next matches Next::Reply(r) && r.status == 200
                && r.content_range is None && r.content == Content::Octets(bytes),
        },
    }
}

/// Reads a file: the range that the `Range` header asks for, where it asks for
/// one that can be understood; otherwise the part from `offset` on, `size` bytes
/// long, where the request names either; otherwise all of it.
pub fn read_file(
    state: &AppState,
    path: &str,
    place: &Place,
    range: Option<&str>,
    offset: Option<u64>,
    size: Option<u64>,
    probe: Option<Probe>,
    opened: Option<Result<u64, FsErrorKind>>,
    read: Option<Result<Vec<u8>, FsErrorKind>>,
) -> (next: Next)
    requires
        (range matches Some(h) && byte_range(h@) is Some) ==> (opened matches Some(Ok(len)) ==> len
            > 0),
    ensures
        match located(state.root_dir@, path@, *place, state.windows) {
            None => says(next, 400, "Invalid path"@),
            Some(full) => match probe {
                None => does(next, full, Deed::Look),
                Some(p) => if !p.exists {
                    says(next, 404, "File not found"@)
                } else if p.is_dir {
                    says(next, 400, "Is a directory"@)
                } else if range matches Some(h) && byte_range(h@) is Some {
                    range_read(
                        full,
                        byte_range(range->Some_0@)->Some_0.0,
                        byte_range(range->Some_0@)->Some_0.1,
                        opened,
                        read,
                        next,
                    )
                } else if offset is Some || size is Some {
                    part_read(full, offset, size, opened, read, next)
                } else {
                    match opened {
                        None => does(next, full, Deed::OpenRead),
                        Some(Err(_)) => says(next, 500, "Failed to read file"@),
                        Some(Ok(_)) => next matches Next::Reply(r) && r.status == 200
                            && r.content_range is None && r.content is WholeFile,
                    }
                },
            },
        },
        next matches Next::Reply(r) ==> (r.content matches Content::Octets(b) ==> (read matches Some(
            Ok(bytes),
        ) && b@.len() == bytes@.len() && forall|i: int|
            0 <= i < bytes@.len() ==> #[trigger] b@[i] == bytes@[i])),
        next matches Next::Do { deed: Deed::ReadAt { start, len }, .. } ==> (opened matches Some(
            Ok(total),
        ) && start + len <= total),
        (next matches Next::Reply(r) && r.status == 404) ==> ((probe matches Some(q) && !q.exists) || (
        opened matches Some(Err(FsErrorKind::NotFound))) || (read matches Some(
            Err(FsErrorKind::NotFound),
        ))),
        (next matches Next::Reply(r) && r.status / 100 == 2) ==> located(state.root_dir@, path@, *place, state.windows) is Some && (probe matches Some(q)
            && q.exists && !q.is_dir) && (opened matches Some(Ok(_))),
        (next matches Next::Reply(r) && r.status == 206) ==> range is Some && (read matches Some(Ok(_))),
        next matches Next::Reply(r) ==> (r.content is WholeFile ==> r.status == 200 && offset is None
            && size is None),
        next matches Next::Do { path: at, .. } ==> located(state.root_dir@, path@, *place, state.windows)
            == Some(at@),
        located(state.root_dir@, path@, *place, state.windows) is None ==> (next matches Next::Reply(r)
            && r.status == 400),
        next matches Next::Do { deed: Deed::ReadAt { start, len }, .. } ==> (opened matches Some(Ok(total))
            ==> (range matches Some(h) ==> (byte_range(h@) matches Some((s, e)) ==> start == s && len > 0
            && (e is None ==> start + len == total) && (e matches Some(x) ==> (x < total ==> start + len
            == x + 1) && (x >= total ==> start + len == total))))),
        next matches Next::Do { deed: Deed::ReadAt { start, len }, .. } ==> (opened matches Some(Ok(total))
            ==> (!(range matches Some(h) && byte_range(h@) is Some) ==> {
            let at = match offset {
                Some(o) => o as int,
                None => 0int,
            };
            &&& at >= total ==> len == 0
            &&& at < total ==> start == at
            &&& at < total && size is None ==> start + len == total
            &&& at < total ==> (size matches Some(n) ==> len == n || (len < n && start + len == total))
        })),
        next matches Next::Reply(r) ==> (r.status == 206 ==> (opened matches Some(Ok(total)) && (range
            matches Some(h) && (byte_range(h@) matches Some((s, e)) && (r.content_range matches Some(c)
            && exists|last: nat|
            last < total && s <= last && c@ == #[trigger] answer_range(s, last, total as nat) && (e is None
                ==> last == total - 1) && (e matches Some(x) ==> last == x || (last < x && last == total
                - 1))))))),
        (range matches Some(h) && (byte_range(h@) matches Some((s, e)) && (opened matches Some(Ok(total))
            && (s >= total || (e matches Some(x) && x < s))))) && (probe matches Some(q) && q.exists
            && !q.is_dir) && located(state.root_dir@, path@, *place, state.windows) is Some ==> (next
            matches Next::Reply(r) && r.status == 416),
{
    let full = match locate(state.root_dir.as_str(), path, place, state.windows) {
        Some(p) => p,
        None => {
            return Next::Reply(words_reply(400, "Invalid path"));
        },
    };
    let p = match probe {
        Some(p) => p,
        None => {
            return Next::Do { path: full, deed: Deed::Look };
        },
    };
    if !p.exists {
        return Next::Reply(words_reply(404, "File not found"));
    }
    if p.is_dir {
        return Next::Reply(words_reply(400, "Is a directory"));
    }
    if let Some(h) = range {
        if let Some((start, end)) = parse_range(h) {
            return handle_range_request(full, start, end, opened, read);
        }
    }
    let len: u64 = match opened {
        None => {
            return Next::Do { path: full, deed: Deed::OpenRead };
        },
        Some(Err(_)) => {
            return Next::Reply(words_reply(500, "Failed to read file"));
        },
        Some(Ok(len)) => len,
    };
    if offset.is_none() && size.is_none() {
        return Next::Reply(
            Response { status: 200, content_range: None, content: Content::WholeFile },
        );
    }
    match read {
        None => {
            let (from, n) = read_window(offset, size, len);
            Next::Do { path: full, deed: Deed::ReadAt { start: from, len: n } }
        },
        Some(Err(_)) => Next::Reply(words_reply(500, "Failed to read file")),
        Some(Ok(bytes)) => Next::Reply(
            Response { status: 200, content_range: None, content: Content::Octets(bytes) },
        ),
    }
}

/// How receiving what a request carries ended.
#[derive(Debug, Clone, Copy, PartialEq, Eq, Structural)]
pub enum Received {
    /// So many bytes came and were written.
    Whole(usize),
    /// The request broke off.
    Broken,
    /// Writing failed.
    Unwritten,
}

/// An upload under way: how many bytes came and were written.
#[derive(Debug)]
pub struct UploadCount {
    pub total: usize,
}

impl UploadCount {
    /// Nothing came yet.
    pub fn new() -> (c: Self)
        ensures
            c.total == 0,
    {
        UploadCount { total: 0 }
    }

    /// Counts a piece of `len` bytes that was written.
    pub fn add(&mut self, len: usize)
        requires
            old(self).total + len <= usize::MAX,
        ensures
            final(self).total == old(self).total + len,
    {
        self.total = self.total + len;
    }

    /// How the upload ended when no more comes.
    pub fn finish(&self) -> (r: Received)
        ensures
            r == Received::Whole(self.total),
    {
        Received::Whole(self.total)
    }
}

/// What an upload wants next, if it wants anything.
pub open spec fn put_deed(
    parents: Option<Result<(), FsErrorKind>>,
    created: Option<Result<(), FsErrorKind>>,
    received: bool,
) -> Option<Deed> {
    match parents {
        None => Some(Deed::MakeParents),
        Some(Err(_)) => None,
        Some(Ok(_)) => match created {
            None => Some(Deed::Create),
            Some(Err(_)) => None,
            Some(Ok(_)) => if received {
                None
            } else {
                Some(Deed::Receive)
            },
        },
    }
}

/// Makes a file of what the request carries.
pub fn write_file(
    state: &AppState,
    path: &str,
    place: &Place,
    parents: Option<Result<(), FsErrorKind>>,
    created: Option<Result<(), FsErrorKind>>,
    received: Option<Received>,
) -> (next: Next)
    ensures
        match located(state.root_dir@, path@, *place, state.windows) {
            None => says(next, 400, "Invalid path"@),
            Some(full) => match parents {
                None => does(next, full, Deed::MakeParents),
                Some(Err(kind)) => says(next, fs_status(kind), "Failed to create directories"@),
                Some(Ok(_)) => match created {
                    None => does(next, full, Deed::Create),
                    Some(Err(kind)) => says(next, fs_status(kind), "Failed to write file"@),
                    Some(Ok(_)) => match received {
                        None => does(next, full, Deed::Receive),
                        Some(Received::Broken) => next matches Next::Reply(r) && cause(r, 400),
                        Some(Received::Unwritten) => next matches Next::Reply(r) && cause(r, 500),
                        Some(Received::Whole(n)) => succeeds(next, Some(n)),
                    },
                },
            },
        },
        located(state.root_dir@, path@, *place, state.windows) matches Some(full) ==> match put_deed(
            parents,
            created,
            received is Some,
        ) {
            Some(d) => does(next, full, d),
            None => next is Reply,
        },
        (next matches Next::Reply(r) && r.status / 100 == 2) <==> (located(state.root_dir@, path@, *place, state.windows) is Some && (parents matches Some(Ok(_)))
            && (created matches Some(Ok(_))) && (received matches Some(Received::Whole(_)))),
        next matches Next::Reply(r) ==> (r.content matches Content::Outcome(a) ==> a.success && (
        received matches Some(Received::Whole(n)) && a.bytes_written == Some(n))),
        next matches Next::Do { path: at, .. } ==> located(state.root_dir@, path@, *place, state.windows)
            == Some(at@),
        located(state.root_dir@, path@, *place, state.windows) is None ==> (next matches Next::Reply(r)
            && r.status == 400),
{
    let full = match locate(state.root_dir.as_str(), path, place, state.windows) {
        Some(p) => p,
        None => {
            return Next::Reply(words_reply(400, "Invalid path"));
        },
    };
    match parents {
        None => Next::Do { path: full, deed: Deed::MakeParents },
        Some(Err(kind)) => Next::Reply(fs_error_json(kind, "Failed to create directories")),
        Some(Ok(_)) => match created {
            None => Next::Do { path: full, deed: Deed::Create },
            Some(Err(kind)) => Next::Reply(fs_error_json(kind, "Failed to write file")),
            Some(Ok(_)) => match received {
                None => Next::Do { path: full, deed: Deed::Receive },
                Some(Received::Broken) => Next::Reply(cause_reply(400)),
                Some(Received::Unwritten) => Next::Reply(cause_reply(500)),
                Some(Received::Whole(n)) => Next::Reply(outcome_reply(Some(n))),
            },
        },
    }
}

/// A partial write under way: what has to come, and what came.
#[derive(Debug)]
pub struct PatchSession {
    pub start: u64,
    pub expected: u64,
    pub total: usize,
}

/// What a partial write wants next.
#[derive(Debug)]
pub enum PatchStep {
    /// This has to be done first, or this is the answer.
    Next(Next),
    /// The pieces of what the request carries have to be offered to this
    /// session, one after another, and those it takes written.
    Receive(PatchSession),
}

/// What is said of a `Content-Range` header that is wrong.
pub open spec fn fault_text(fault: RangeFault) -> Seq<char> {
    match fault {
        RangeFault::Format => "Invalid Content-Range format"@,
        RangeFault::StartEnd => "Invalid start-end"@,
        RangeFault::Start => "Invalid start"@,
        RangeFault::End => "Invalid end"@,
        RangeFault::Order => "End < start"@,
    }
}

/// The answer to a `Content-Range` header that is wrong.
fn fault_reply(fault: RangeFault) -> (r: Response)
    ensures
        words(r, 400, fault_text(fault)),
{
    match fault {
        RangeFault::Format => words_reply(400, "Invalid Content-Range format"),
        RangeFault::StartEnd => words_reply(400, "Invalid start-end"),
        RangeFault::Start => words_reply(400, "Invalid start"),
        RangeFault::End => words_reply(400, "Invalid end"),
        RangeFault::Order => words_reply(400, "End < start"),
    }
}

/// The step of a partial write of the bytes `start` to `end` of the file at
/// `full`.
pub open spec fn patching(
    full: Seq<char>,
    start: nat,
    end: nat,
    parents: Option<Result<(), FsErrorKind>>,
    opened: Option<Result<u64, FsErrorKind>>,
    extended: Option<Result<(), FsErrorKind>>,
    sought: Option<Result<(), FsErrorKind>>,
    step: PatchStep,
) -> bool {
    match parents {
        None => step matches PatchStep::Next(n) && does(n, full, Deed::MakeParents),
        Some(Err(kind)) => step matches PatchStep::Next(n) && says(
            n,
            fs_status(kind),
            "Failed to create parent directories"@,
        ),
        Some(Ok(_)) => match opened {
            None => step matches PatchStep::Next(n) && does(n, full, Deed::OpenWrite),
            Some(Err(kind)) => step matches PatchStep::Next(n) && says(
                n,
                fs_status(kind),
                "Failed to open file"@,
            ),
            Some(Ok(len)) => if end + 1 > len && extended is None {
                step matches PatchStep::Next(n) && does(n, full, Deed::Extend((end + 1) as u64))
            } else if end + 1 > len && extended matches Some(Err(kind)) {
                step matches PatchStep::Next(n) && says(
                    n,
                    fs_status(extended->Some_0->Err_0),
                    "Failed to extend file"@,
                )
            } else {
                match sought {
                    None => step matches PatchStep::Next(n) && does(
                        n,
                        full,
                        Deed::Seek(start as u64),
                    ),
                    Some(Err(kind)) => step matches PatchStep::Next(n) && says(
                        n,
                        fs_status(kind),
                        "Failed to seek"@,
                    ),
                    Some(Ok(_)) => step matches PatchStep::Receive(s) && s.start == start
                        && s.expected == end - start + 1 && s.total == 0,
                }
            },
        },
    }
}

/// Writes a part of a file, which the `Content-Range` header names by its first
/// and its last byte. The file is made where it is missing, and made longer
/// where it is too short. No file is so long that its last byte has the largest
/// number.
pub fn patch_file(
    state: &AppState,
    path: &str,
    place: &Place,
    header: Option<&str>,
    parents: Option<Result<(), FsErrorKind>>,
    opened: Option<Result<u64, FsErrorKind>>,
    extended: Option<Result<(), FsErrorKind>>,
    sought: Option<Result<(), FsErrorKind>>,
) -> (step: PatchStep)
    requires
        (opened matches Some(Ok(_))) ==> (header matches Some(h) ==> (content_span(h@) matches Ok(
            (_, end),
        ) ==> end < u64::MAX)),
    ensures
        match located(state.root_dir@, path@, *place, state.windows) {
            None => step matches PatchStep::Next(n) && says(n, 400, "Invalid path"@),
            Some(full) => match header {
                None => step matches PatchStep::Next(n) && says(
                    n,
                    400,
                    "Missing Content-Range header"@,
                ),
                Some(h) => match content_span(h@) {
                    Err(fault) => step matches PatchStep::Next(n) && says(
                        n,
                        400,
                        fault_text(fault),
                    ),
                    Ok((start, end)) => patching(
                        full,
                        start,
                        end,
                        parents,
                        opened,
                        extended,
                        sought,
                        step,
                    ),
                },
            },
        },
        step matches PatchStep::Next(Next::Do { deed: Deed::Extend(n), .. }) ==> (opened matches Some(
            Ok(len),
        ) && n > len) && (header matches Some(h) && (content_span(h@) matches Ok((_, last)) && n == last + 1)),
        step matches PatchStep::Next(Next::Do { deed: Deed::Seek(at), .. }) ==> (header matches Some(h) && (
        content_span(h@) matches Ok((first, _)) && at == first)),
        step matches PatchStep::Receive(s) ==> (header matches Some(h) && (content_span(h@) matches Ok((first, last))
            && s.start == first && s.start + s.expected == last + 1 && s.total == 0)),
        step matches PatchStep::Next(Next::Reply(r)) ==> r.status >= 400,
        step matches PatchStep::Next(Next::Do { path: at, .. }) ==> located(
            state.root_dir@,
            path@,
            *place,
            state.windows,
        ) == Some(at@),
        located(state.root_dir@, path@, *place, state.windows) is None ==> (step matches PatchStep::Next(
            Next::Reply(r),
        ) && r.status == 400),
        step matches PatchStep::Receive(_) ==> (parents matches Some(Ok(_))) && (opened matches Some(
            Ok(_),
        )) && (sought matches Some(Ok(_))),
        step matches PatchStep::Receive(_) ==> (opened matches Some(Ok(len)) && (header matches Some(h) && (
        content_span(h@) matches Ok((_, last)) && (last < len || (extended matches Some(Ok(_))))))),
        step matches PatchStep::Next(Next::Do { deed: Deed::Seek(_), .. }) ==> (opened matches Some(Ok(len))
            && (header matches Some(h) && (content_span(h@) matches Ok((_, last)) && (last < len || (extended
            matches Some(Ok(_))))))),
{
    let full = match locate(state.root_dir.as_str(), path, place, state.windows) {
        Some(p) => p,
        None => {
            return PatchStep::Next(Next::Reply(words_reply(400, "Invalid path")));
        },
    };
    let h = match header {
        Some(h) => h,
        None => {
            return PatchStep::Next(Next::Reply(words_reply(400, "Missing Content-Range header")));
        },
    };
    let (start, end) = match parse_content_range(h) {
        Ok(span) => span,
        Err(fault) => {
            return PatchStep::Next(Next::Reply(fault_reply(fault)));
        },
    };
    match parents {
        None => {
            return PatchStep::Next(Next::Do { path: full, deed: Deed::MakeParents });
        },
        Some(Err(kind)) => {
            return PatchStep::Next(
                Next::Reply(fs_error_json(kind, "Failed to create parent directories")),
            );
        },
        Some(Ok(_)) => {},
    }
    let len: u64 = match opened {
        None => {
            return PatchStep::Next(Next::Do { path: full, deed: Deed::OpenWrite });
        },
        Some(Err(kind)) => {
            return PatchStep::Next(Next::Reply(fs_error_json(kind, "Failed to open file")));
        },
        Some(Ok(len)) => len,
    };
    if end + 1 > len {
        match extended {
            None => {
                return PatchStep::Next(Next::Do { path: full, deed: Deed::Extend(end + 1) });
            },
            Some(Err(kind)) => {
                return PatchStep::Next(Next::Reply(fs_error_json(kind, "Failed to extend file")));
            },
            Some(Ok(_)) => {},
        }
    }
    match sought {
        None => PatchStep::Next(Next::Do { path: full, deed: Deed::Seek(start) }),
        Some(Err(kind)) => PatchStep::Next(Next::Reply(fs_error_json(kind, "Failed to seek"))),
        Some(Ok(_)) => PatchStep::Receive(
            PatchSession { start, expected: end - start + 1, total: 0 },
        ),
    }
}

impl PatchSession {
    /// No more came than was to come.
    pub open spec fn wf(&self) -> bool {
        self.total <= self.expected
    }

    /// Offers a piece of `len` bytes. A piece that is too much is refused, and
    /// the write is over; any other is to be written where the last one ended.
    pub fn offer(&mut self, len: usize) -> (r: Option<Response>)
        requires
            old(self).wf(),
            old(self).total + len <= usize::MAX,
        ensures
            final(self).wf(),
            final(self).start == old(self).start,
            final(self).expected == old(self).expected,
            if old(self).total + len > old(self).expected {
                r matches Some(a) && words(a, 400, "Payload larger than Content-Range"@)
                    && final(self).total == old(self).total
            } else {
                r is None && final(self).total == old(self).total + len
            },
            r is Some <==> old(self).total + len > old(self).expected,
            r matches Some(a) ==> a.status == 400 && final(self).total == old(self).total,
            r is None ==> final(self).total == old(self).total + len,
            final(self).total <= final(self).expected,
    {
        if self.total as u64 + len as u64 > self.expected {
            return Some(words_reply(400, "Payload larger than Content-Range"));
        }
        self.total = self.total + len;
        None
    }

    /// The answer where writing a piece failed.
    pub fn unwritten(kind: FsErrorKind) -> (r: Response)
        ensures
            words(r, fs_status(kind), "Failed to write chunk"@),
    {
        fs_error_json(kind, "Failed to write chunk")
    }

    /// The answer when no more comes.
    pub fn finish(&self) -> (r: Response)
        requires
            self.wf(),
        ensures
            if self.total == self.expected {
                outcome(r, Some(self.total))
            } else {
                words(r, 400, "Payload size does not match Content-Range"@)
            },
            r.status == 200 <==> self.total == self.expected,
            r.content matches Content::Outcome(a) ==> a.bytes_written == Some(self.total),
    {
        if self.total as u64 != self.expected {
            words_reply(400, "Payload size does not match Content-Range")
        } else {
            outcome_reply(Some(self.total))
        }
    }
}

/// The file once it was made at least `len` bytes long.
pub open spec fn lengthened(data: Seq<u8>, len: nat) -> Seq<u8> {
    if data.len() < len {
        data + Seq::new((len - data.len()) as nat, |i: int| 0u8)
    } else {
        data
    }
}

/// The file once the pieces were written one behind another from `offset` on.
pub open spec fn written(data: Seq<u8>, offset: int, pieces: Seq<Seq<u8>>) -> Seq<u8>
    decreases pieces.len(),
{
    if pieces.len() == 0 {
        data
    } else {
        let before = written(data, offset, pieces.drop_last());
        spliced(before, offset + pieces.drop_last().flatten_alt().len(), pieces.last())
    }
}

/// Pieces written one behind another are one write of them all.
proof fn lemma_written(data: Seq<u8>, offset: nat, pieces: Seq<Seq<u8>>)
    requires
        offset <= data.len(),
    ensures
        written(data, offset as int, pieces) == spliced(data, offset as int, pieces.flatten_alt()),
    decreases pieces.len(),
{
    if pieces.len() == 0 {
        assert(spliced(data, offset as int, pieces.flatten_alt()) =~= data);
    } else {
        lemma_written(data, offset, pieces.drop_last());
        law_adjacent_writes(data, offset, pieces.drop_last().flatten_alt(), pieces.last());
    }
}

/// A partial write that is answered with success has put what the request
/// carried at its place in the file, and has changed nothing else: whatever
/// pieces it came in, and however long the file was.
pub proof fn law_patch_effect(data: Seq<u8>, start: nat, end: nat, pieces: Seq<Seq<u8>>)
    requires
        start <= end,
        pieces.flatten_alt().len() == end - start + 1,
    ensures
        written(lengthened(data, end + 1), start as int, pieces) == spliced(
            data,
            start as int,
            pieces.flatten_alt(),
        ),
{
    lemma_written(lengthened(data, end + 1), start, pieces);
    assert(spliced(lengthened(data, end + 1), start as int, pieces.flatten_alt()) =~= spliced(
        data,
        start as int,
        pieces.flatten_alt(),
    ));
}

/// The open file once all that an upload of `data` still wants was done and went
/// well.
pub open spec fn put_from(
    data: Seq<u8>,
    f: OpenFile,
    parents: Option<Result<(), FsErrorKind>>,
    created: Option<Result<(), FsErrorKind>>,
    received: bool,
) -> OpenFile
    decreases left(parents is None) + left(created is None) + left(!received),
{
    match put_deed(parents, created, received) {
        Some(Deed::MakeParents) => put_from(data, f, Some(Ok(())), created, received),
        Some(Deed::Create) => put_from(
            data,
            begun(Seq::empty()),
            parents,
            Some(Ok(())),
            received,
        ),
        Some(Deed::Receive) => put_from(data, took_in(f, data), parents, created, true),
        _ => f,
    }
}

/// An upload that goes well makes a file of what it carries, whatever the file
/// held before.
pub proof fn law_put_effect(content: Seq<u8>, data: Seq<u8>)
    ensures
        put_from(data, begun(content), None, None, false).content == data,
{
    reveal_with_fuel(put_from, 5);
    if data.len() == 0 {
        assert(data =~= Seq::<u8>::empty());
    } else {
        assert(spliced(Seq::empty(), 0, data) =~= data);
    }
}

/// What a partial write put into a file is what a request for the same range
/// reads back.
pub proof fn law_patch_then_range(content: Seq<u8>, start: nat, data: Seq<u8>)
    requires
        data.len() > 0,
    ensures
        ({
            let after = spliced(content, start as int, data);
            let end = (start + data.len() - 1) as nat;
            selected(start, Some(end), after.len()) == Some((start, end)) && slice(
                after,
                start as int,
                end - start + 1,
            ) == data
        }),
{
    law_write_then_read(content, start, data);
}

/// The length and the time of the last change of a file, the latter in seconds
/// since the epoch where it is known.
#[derive(Debug, Clone, Copy, PartialEq, Eq, Structural)]
pub struct Meta {
    pub len: u64,
    pub modified: Option<u64>,
}

/// Tells the length of a file and the date of its last change, which is the
/// epoch where it is not known. `meta` is `None` within for metadata that could
/// not be read.
pub fn file_info(
    state: &AppState,
    path: &str,
    place: &Place,
    probe: Option<Probe>,
    meta: Option<Option<Meta>>,
) -> (next: Next)
    requires
        meta matches Some(Some(m)) ==> (m.modified matches Some(t) ==> t < DATE_LIMIT),
    ensures
        match located(state.root_dir@, path@, *place, state.windows) {
            None => next matches Next::Reply(r) && bare(r, 400),
            Some(full) => match probe {
                None => does(next, full, Deed::Look),
                Some(p) => if !p.exists {
                    next matches Next::Reply(r) && bare(r, 404)
                } else if p.is_dir {
                    next matches Next::Reply(r) && bare(r, 400)
                } else {
                    match meta {
                        None => does(next, full, Deed::Stat),
                        Some(None) => next matches Next::Reply(r) && bare(r, 500),
                        Some(Some(m)) => next matches Next::Reply(r) && r.status == 200
                            && r.content_range is None && (r.content matches Content::Head {
                            length,
                            modified,
                        } && length == m.len && modified@ == http_date_text(
                            match m.modified {
                                Some(t) => t,
                                None => 0,
                            },
                        )),
                    }
                },
            },
        },
        next matches Next::Reply(r) ==> (r.content matches Content::Head { length, .. } ==> (meta matches Some(
            Some(m),
        ) && length == m.len && r.status == 200)),
        (next matches Next::Reply(r) && r.status == 404) <==> (located(state.root_dir@, path@, *place, state.windows) is Some && (probe matches Some(q)
            && !q.exists)),
        next matches Next::Do { path: at, .. } ==> located(state.root_dir@, path@, *place, state.windows)
            == Some(at@),
        located(state.root_dir@, path@, *place, state.windows) is None ==> (next matches Next::Reply(r)
            && r.status == 400),
{
    let full = match locate(state.root_dir.as_str(), path, place, state.windows) {
        Some(p) => p,
        None => {
            return Next::Reply(bare_reply(400));
        },
    };
    let p = match probe {
        Some(p) => p,
        None => {
            return Next::Do { path: full, deed: Deed::Look };
        },
    };
    if !p.exists {
        return Next::Reply(bare_reply(404));
    }
    if p.is_dir {
        return Next::Reply(bare_reply(400));
    }
    match meta {
        None => Next::Do { path: full, deed: Deed::Stat },
        Some(None) => Next::Reply(bare_reply(500)),
        Some(Some(m)) => {
            let at: u64 = match m.modified {
                Some(t) => t,
                None => 0,
            };
            let modified = http_date(at);
            Next::Reply(
                Response {
                    status: 200,
                    content_range: None,
                    content: Content::Head { length: m.len, modified },
                },
            )
        },
    }
}

/// Makes a directory, and those above it.
pub fn create_directory(
    state: &AppState,
    path: &str,
    place: &Place,
    made: Option<Result<(), FsErrorKind>>,
) -> (next: Next)
    ensures
        match located(state.root_dir@, path@, *place, state.windows) {
            None => says(next, 400, "Invalid path"@),
            Some(full) => match made {
                None => does(next, full, Deed::MakeDirs),
                Some(Err(kind)) => says(next, fs_status(kind), "Failed to create directory"@),
                Some(Ok(_)) => succeeds(next, None),
            },
        },
        (next matches Next::Reply(r) && r.status / 100 == 2) <==> (located(state.root_dir@, path@, *place, state.windows) is Some && (made matches Some(Ok(_)))),
        next is Do <==> located(state.root_dir@, path@, *place, state.windows) is Some && made is None,
        next matches Next::Do { path: at, .. } ==> located(state.root_dir@, path@, *place, state.windows)
            == Some(at@),
        located(state.root_dir@, path@, *place, state.windows) is None ==> (next matches Next::Reply(r)
            && r.status == 400),
{
    let full = match locate(state.root_dir.as_str(), path, place, state.windows) {
        Some(p) => p,
        None => {
            return Next::Reply(words_reply(400, "Invalid path"));
        },
    };
    match made {
        None => Next::Do { path: full, deed: Deed::MakeDirs },
        Some(Err(kind)) => Next::Reply(fs_error_json(kind, "Failed to create directory")),
        Some(Ok(_)) => Next::Reply(outcome_reply(None)),
    }
}

/// Removes a file or an empty directory.
pub fn delete_file(
    state: &AppState,
    path: &str,
    place: &Place,
    probe: Option<Probe>,
    removed: Option<Result<(), FsErrorKind>>,
) -> (next: Next)
    ensures
        match located(state.root_dir@, path@, *place, state.windows) {
            None => says(next, 400, "Invalid path"@),
            Some(full) => match probe {
                None => does(next, full, Deed::Look),
                Some(p) => if !p.exists {
                    says(next, 404, "File not found"@)
                } else {
                    match removed {
                        None => if p.is_dir {
                            does(next, full, Deed::RemoveDir)
                        } else {
                            does(next, full, Deed::RemoveFile)
                        },
                        Some(Err(kind)) => says(next, fs_status(kind), "Failed to delete"@),
                        Some(Ok(_)) => succeeds(next, None),
                    }
                },
            },
        },
        (next matches Next::Reply(r) && r.status / 100 == 2) <==> (located(state.root_dir@, path@, *place, state.windows) is Some && (probe matches Some(q)
            && q.exists) && (removed matches Some(Ok(_)))),
        (next matches Next::Do { deed: Deed::RemoveDir, .. }) <==> (located(state.root_dir@, path@, *place, state.windows) is Some && (probe matches Some(q)
            && q.exists && q.is_dir) && removed is None),
        (next matches Next::Do { deed: Deed::RemoveFile, .. }) <==> (located(state.root_dir@, path@, *place, state.windows) is Some && (probe matches Some(q)
            && q.exists && !q.is_dir) && removed is None),
        (removed matches Some(Err(FsErrorKind::DirectoryNotEmpty))) && located(state.root_dir@, path@, *place, state.windows) is Some && (probe matches Some(q)
            && q.exists) ==> (next matches Next::Reply(r) && r.status == 409),
        next matches Next::Do { path: at, .. } ==> located(state.root_dir@, path@, *place, state.windows)
            == Some(at@),
        located(state.root_dir@, path@, *place, state.windows) is None ==> (next matches Next::Reply(r)
            && r.status == 400),
{
    let full = match locate(state.root_dir.as_str(), path, place, state.windows) {
        Some(p) => p,
        None => {
            return Next::Reply(words_reply(400, "Invalid path"));
        },
    };
    let p = match probe {
        Some(p) => p,
        None => {
            return Next::Do { path: full, deed: Deed::Look };
        },
    };
    if !p.exists {
        return Next::Reply(words_reply(404, "File not found"));
    }
    match removed {
        None => if p.is_dir {
            Next::Do { path: full, deed: Deed::RemoveDir }
        } else {
            Next::Do { path: full, deed: Deed::RemoveFile }
        },
        Some(Err(kind)) => Next::Reply(fs_error_json(kind, "Failed to delete")),
        Some(Ok(_)) => Next::Reply(outcome_reply(None)),
    }
}

/// The handler wants what stands at `from` renamed to `to`.
pub open spec fn renames(next: Next, from: Seq<char>, to: Seq<char>) -> bool {
    next matches Next::Do { path, deed } && path@ == from && (deed matches Deed::RenameTo(t)
        && t@ == to)
}

/// Gives what stands at one path another, once the directories above the latter
/// are there.
pub fn rename_entry(
    state: &AppState,
    request: &RenameRequest,
    from_place: &Place,
    to_place: &Place,
    probe: Option<Probe>,
    parents: Option<Result<(), FsErrorKind>>,
    renamed: Option<Result<(), FsErrorKind>>,
) -> (next: Next)
    ensures
        match located(state.root_dir@, request.from@, *from_place, state.windows) {
            None => says(next, 400, "Invalid 'from' path"@),
            Some(from) => match located(state.root_dir@, request.to@, *to_place, state.windows) {
                None => says(next, 400, "Invalid 'to' path"@),
                Some(to) => match probe {
                    None => does(next, from, Deed::Look),
                    Some(p) => if !p.exists {
                        says(next, 404, "Source not found"@)
                    } else {
                        match parents {
                            None => does(next, to, Deed::MakeParents),
                            Some(Err(kind)) => says(
                                next,
                                fs_status(kind),
                                "Failed to prepare destination"@,
                            ),
                            Some(Ok(_)) => match renamed {
                                None => renames(next, from, to),
                                Some(Err(kind)) => says(
                                    next,
                                    fs_status(kind),
                                    "Failed to rename"@,
                                ),
                                Some(Ok(_)) => succeeds(next, None),
                            },
                        }
                    },
                },
            },
        },
        next matches Next::Do { path: at, deed: Deed::RenameTo(to) } ==> located(
            state.root_dir@,
            request.from@,
            *from_place,
            state.windows,
        ) == Some(at@) && located(state.root_dir@, request.to@, *to_place, state.windows) == Some(to@),
        (next matches Next::Reply(r) && r.status / 100 == 2) ==> (probe matches Some(q) && q.exists) && (
        parents matches Some(Ok(_))) && (renamed matches Some(Ok(_))),
        (renamed matches Some(Ok(_))) && (parents matches Some(Ok(_))) && (probe matches Some(q) && q.exists)
            && located(state.root_dir@, request.from@, *from_place, state.windows) is Some && located(
            state.root_dir@,
            request.to@,
            *to_place,
            state.windows,
        ) is Some ==> (next matches Next::Reply(r) && r.status / 100 == 2),
        next matches Next::Do { path: at, deed } ==> (deed == Deed::Look ==> located(
            state.root_dir@,
            request.from@,
            *from_place,
            state.windows,
        ) == Some(at@)) && (deed == Deed::MakeParents ==> located(
            state.root_dir@,
            request.to@,
            *to_place,
            state.windows,
        ) == Some(at@)),
        (next matches Next::Reply(r) && r.status == 404) && !(parents is Some) ==> (probe matches Some(q)
            && !q.exists),
{
    let from = match locate(state.root_dir.as_str(), request.from.as_str(), from_place, state.windows) {
        Some(p) => p,
        None => {
            return Next::Reply(words_reply(400, "Invalid 'from' path"));
        },
    };
    let to = match locate(state.root_dir.as_str(), request.to.as_str(), to_place, state.windows) {
        Some(p) => p,
        None => {
            return Next::Reply(words_reply(400, "Invalid 'to' path"));
        },
    };
    let p = match probe {
        Some(p) => p,
        None => {
            return Next::Do { path: from, deed: Deed::Look };
        },
    };
    if !p.exists {
        return Next::Reply(words_reply(404, "Source not found"));
    }
    match parents {
        None => Next::Do { path: to, deed: Deed::MakeParents },
        Some(Err(kind)) => Next::Reply(fs_error_json(kind, "Failed to prepare destination")),
        Some(Ok(_)) => match renamed {
            None => Next::Do { path: from, deed: Deed::RenameTo(to) },
            Some(Err(kind)) => Next::Reply(fs_error_json(kind, "Failed to rename")),
            Some(Ok(_)) => Next::Reply(outcome_reply(None)),
        },
    }
}

/// Sets the permission bits of a file, where the request names any. `stat` is
/// what reading the metadata gave.
pub fn set_attrs(
    state: &AppState,
    path: &str,
    place: &Place,
    request: &SetAttrsRequest,
    probe: Option<Probe>,
    stat: Option<Result<(), FsErrorKind>>,
    changed: Option<Result<(), FsErrorKind>>,
) -> (next: Next)
    ensures
        match located(state.root_dir@, path@, *place, state.windows) {
            None => says(next, 400, "Invalid path"@),
            Some(full) => match probe {
                None => does(next, full, Deed::Look),
                Some(p) => if !p.exists {
                    says(next, 404, "File not found"@)
                } else {
                    match request.mode {
                        None => succeeds(next, None),
                        Some(mode) => match stat {
                            None => does(next, full, Deed::Stat),
                            Some(Err(kind)) => says(
                                next,
                                fs_status(kind),
                                "Failed to read metadata"@,
                            ),
                            Some(Ok(_)) => match changed {
                                None => does(next, full, Deed::SetMode(mode)),
                                Some(Err(kind)) => says(
                                    next,
                                    fs_status(kind),
                                    "Failed to set permissions"@,
                                ),
                                Some(Ok(_)) => succeeds(next, None),
                            },
                        },
                    }
                },
            },
        },
        next matches Next::Do { deed: Deed::SetMode(m), .. } ==> request.mode == Some(m),
        (next matches Next::Reply(r) && r.status / 100 == 2) <==> (located(state.root_dir@, path@, *place, state.windows) is Some && (probe matches Some(q)
            && q.exists) && (request.mode is None || ((stat matches Some(Ok(_))) && (changed matches Some(
            Ok(_),
        ))))),
        next matches Next::Do { path: at, .. } ==> located(state.root_dir@, path@, *place, state.windows)
            == Some(at@),
        located(state.root_dir@, path@, *place, state.windows) is None ==> (next matches Next::Reply(r)
            && r.status == 400),
{
    let full = match locate(state.root_dir.as_str(), path, place, state.windows) {
        Some(p) => p,
        None => {
            return Next::Reply(words_reply(400, "Invalid path"));
        },
    };
    let p = match probe {
        Some(p) => p,
        None => {
            return Next::Do { path: full, deed: Deed::Look };
        },
    };
    if !p.exists {
        return Next::Reply(words_reply(404, "File not found"));
    }
    let mode: u32 = match request.mode {
        Some(mode) => mode,
        None => {
            return Next::Reply(outcome_reply(None));
        },
    };
    match stat {
        None => Next::Do { path: full, deed: Deed::Stat },
        Some(Err(kind)) => Next::Reply(fs_error_json(kind, "Failed to read metadata")),
        Some(Ok(_)) => match changed {
            None => Next::Do { path: full, deed: Deed::SetMode(mode) },
            Some(Err(kind)) => Next::Reply(fs_error_json(kind, "Failed to set permissions")),
            Some(Ok(_)) => Next::Reply(outcome_reply(None)),
        },
    }
}

/// How many of the entries could be read.
pub open spec fn readable(found: Seq<Option<FoundEntry>>) -> nat
    decreases found.len(),
{
    if found.len() == 0 {
        0
    } else {
        readable(found.drop_last()) + (if found.last() is Some {
            1nat
        } else {
            0nat
        })
    }
}

/// Every entry of a listing says of itself what the file system said: its name,
/// whether it is a directory, its size, its times and its permission bits. There
/// are as many entries as could be read, each behind those that came before it.
pub proof fn law_listing(found: Seq<Option<FoundEntry>>)
    ensures
        shown(found).len() == readable(found),
        forall|k: int|
            0 <= k < found.len() ==> (#[trigger] found[k] matches Some(e) ==> {
                let d = shown(found)[readable(found.take(k)) as int];
                &&& readable(found.take(k)) < shown(found).len()
                &&& d.name@ == e.name@
                &&& d.is_dir == e.is_dir
                &&& d.size == e.size
                &&& e.modified matches Some(t) ==> d.mtime == t
                &&& e.modified is None ==> d.mtime == 0
                &&& e.created matches Some(t) ==> d.ctime == t
                &&& e.created is None ==> d.ctime == d.mtime
                &&& e.unix_mode matches Some(m) ==> d.mode == m
                &&& e.unix_mode is None ==> d.mode == shown_mode(None, e.readonly)
            }),
    decreases found.len(),
{
    if found.len() > 0 {
        let head = found.drop_last();
        law_listing(head);
        assert forall|k: int| 0 <= k < found.len() implies (#[trigger] found[k] matches Some(e) ==> {
            let d = shown(found)[readable(found.take(k)) as int];
            &&& readable(found.take(k)) < shown(found).len()
            &&& d.name@ == e.name@
            &&& d.is_dir == e.is_dir
            &&& d.size == e.size
            &&& e.modified matches Some(t) ==> d.mtime == t
            &&& e.modified is None ==> d.mtime == 0
            &&& e.created matches Some(t) ==> d.ctime == t
            &&& e.created is None ==> d.ctime == d.mtime
            &&& e.unix_mode matches Some(m) ==> d.mode == m
            &&& e.unix_mode is None ==> d.mode == shown_mode(None, e.readonly)
        }) by {
            if k < head.len() {
                assert(head[k] == found[k]);
                assert(head.take(k) =~= found.take(k));
            } else {
                assert(found.take(k) =~= head);
            }
        }
    }
}

/// Two parts of a directory are shown one behind the other.
pub proof fn law_listing_parts(a: Seq<Option<FoundEntry>>, b: Seq<Option<FoundEntry>>)
    ensures
        shown(a + b) == shown(a) + shown(b),
    decreases b.len(),
{
    if b.len() == 0 {
        assert(a + b =~= a);
        assert(shown(a) + shown(b) =~= shown(a));
    } else {
        law_listing_parts(a, b.drop_last());
        assert((a + b).drop_last() =~= a + b.drop_last());
        assert((a + b).last() == b.last());
        assert(shown(a + b) =~= shown(a) + shown(b));
    }
}

/// Permission bits that the system knows are shown as they are; otherwise whoever
/// sees the file may read it, and write it unless it is read-only.
pub proof fn law_shown_mode(mode: u32, readonly: bool)
    ensures
        shown_mode(Some(mode), readonly) == mode,
        shown_mode(None, readonly) & 0o444 == 0o444,
        shown_mode(None, readonly) & 0o222 == (if readonly {
            0u32
        } else {
            0o222u32
        }),
{
    assert(0o555u32 & 0o222 == 0 && 0o555u32 & 0o444 == 0o444) by (bit_vector);
    assert(0o666u32 & 0o222 == 0o222 && 0o666u32 & 0o444 == 0o444) by (bit_vector);
}

/// A range of a file that holds `content` is answered with just the bytes of it:
/// all from its start on where it has no end or ends at the last byte or behind
/// it, and those up to its end otherwise. What is read is what is answered, with
/// the status 206 and a header that names as many bytes. Only a range that starts
/// behind the last byte, or ends before it starts, is refused.
pub proof fn law_range_read(
    full: Seq<char>,
    start: nat,
    end: Option<nat>,
    content: Seq<u8>,
    read: Option<Result<Vec<u8>, FsErrorKind>>,
    next: Next,
)
    requires
        0 < content.len() <= u64::MAX,
        range_read(full, start, end, Some(Ok(content.len() as u64)), read, next),
    ensures
        (next matches Next::Reply(r) && r.status == 416) <==> (start >= content.len() || (end matches Some(
            e,
        ) && e < start)),
        next matches Next::Do { path, deed } ==> path@ == full && (deed matches Deed::ReadAt {
            start: from,
            len,
        } && ({
            let given = slice(content, from as int, len as int);
            &&& given.len() == len
            &&& end is None ==> given == content.skip(start as int)
            &&& end matches Some(w) ==> (w >= content.len() - 1 ==> given == content.skip(
                start as int,
            ))
            &&& end matches Some(w) ==> (w < content.len() ==> given == content.subrange(
                start as int,
                w as int + 1,
            ))
        })),
        next matches Next::Reply(r) ==> (r.content matches Content::Octets(b) ==> r.status == 206 && (
        read matches Some(Ok(bytes)) && b@ == bytes@) && (r.content_range matches Some(h) && (
        content_span(h@) matches Ok((first, last)) && first == start && last < content.len() && (
        end is None ==> last == content.len() - 1)))),
{
    law_range_selects(content, start, end);
    if let Some((s, e)) = selected(start, end, content.len()) {
        crate::range::law_answer_range(s, e, content.len());
    }
}

/// A part of a file that holds `content` is answered with just the bytes of it
/// that were asked for, and what is read is what is answered.
pub proof fn law_part_read(
    full: Seq<char>,
    offset: Option<u64>,
    size: Option<u64>,
    content: Seq<u8>,
    read: Option<Result<Vec<u8>, FsErrorKind>>,
    next: Next,
)
    requires
        content.len() <= u64::MAX,
        part_read(full, offset, size, Some(Ok(content.len() as u64)), read, next),
    ensures
        read is None ==> (next matches Next::Do { path, deed } && path@ == full && (
        deed matches Deed::ReadAt { start, len } && slice(content, start as int, len as int)
            == slice(
            content,
            match offset {
                Some(o) => o as int,
                None => 0,
            },
            match size {
                Some(n) => n as int,
                None => content.len() as int,
            },
        ) && slice(content, start as int, len as int).len() == len)),
        read matches Some(Ok(bytes)) ==> (next matches Next::Reply(r) && r.status == 200 && (
        r.content matches Content::Octets(b) && b@ == bytes@)),
        read matches Some(Err(_)) ==> (next matches Next::Reply(r) && r.status == 500),
{
    crate::range::law_window_bytes(content, offset, size);
    crate::range::law_window_length(content, offset, size);
}

/// A partial write makes a file longer only where it is too short, goes to the
/// first byte it names, and takes in just as many bytes as it names. It is
/// answered before it takes anything in only where something failed.
pub proof fn law_patching(
    full: Seq<char>,
    start: nat,
    end: nat,
    parents: Option<Result<(), FsErrorKind>>,
    opened: Option<Result<u64, FsErrorKind>>,
    extended: Option<Result<(), FsErrorKind>>,
    sought: Option<Result<(), FsErrorKind>>,
    step: PatchStep,
)
    requires
        start <= end < u64::MAX,
        patching(full, start, end, parents, opened, extended, sought, step),
    ensures
        step matches PatchStep::Next(Next::Do { path, .. }) ==> path@ == full,
        step matches PatchStep::Next(Next::Do { deed: Deed::Extend(n), .. }) ==> n == end + 1 && (
        opened matches Some(Ok(len)) && len <= end),
        step matches PatchStep::Next(Next::Do { deed: Deed::Seek(at), .. }) ==> at == start && (
        opened matches Some(Ok(len)) && (len > end || (extended matches Some(Ok(_))))),
        step matches PatchStep::Receive(s) ==> s.start == start && s.start + s.expected == end + 1
            && s.total == 0 && (parents matches Some(Ok(_))) && (opened matches Some(Ok(_))) && (
        sought matches Some(Ok(_))),
        step matches PatchStep::Next(Next::Reply(r)) ==> r.status >= 400 && ((parents matches Some(
            Err(_),
        )) || (opened matches Some(Err(_))) || (extended matches Some(Err(_))) || (sought matches Some(
            Err(_),
        ))),
{
}

/// A failure of the file system that is passed on as it is tells of no success,
/// and of a missing file only where there is none.
pub proof fn law_broken_status(kind: FsErrorKind)
    ensures
        broken_status(kind) == 404 <==> kind == FsErrorKind::NotFound,
        broken_status(kind) == 403 <==> kind == FsErrorKind::PermissionDenied,
        broken_status(kind) >= 400,
        broken_status(kind) != 404 && broken_status(kind) != 403 ==> broken_status(kind) == 500,
{
}

} // verus!
