//! The handlers of the server that keeps every request below its root and lets
//! clients ask whether something changed.

use vstd::prelude::*;
use vstd::string::*;

use crate::bytes::{law_write_elsewhere, law_write_then_read, slice, spliced};
use crate::disk::{begun, left, resized, rest, took_in, OpenFile};
use crate::numeral::{
    decimal, digit_char, digits_value, hexadecimal, lemma_decimal_digits, render_decimal,
    render_hexadecimal,
};
use crate::native::{names, names_of, under};
use crate::paths::{
    climbs, lemma_split_at, lemma_split_single, resolve_under_root, resolved_path,
};
use crate::range::{law_window_bytes, lemma_digits_plain, read_window, window};
use crate::text::{
    owned, replace_char, replaced, same_text, split, texts, trim_start, trim_start_char,
};

verus! {

/// What the server serves.
#[derive(Debug)]
pub struct RootState {
    pub remote_fs_root: String,
    /// Whether the server runs on Windows.
    pub windows: bool,
}

/// What is told of a file.
#[derive(Debug)]
pub struct FileStat {
    pub name: String,
    pub path: String,
    pub file_type: String,
    pub size: u64,
    pub timestamp: u64,
    pub permissions: String,
}

/// What a renaming request carries.
#[derive(Debug)]
pub struct RenameReq {
    pub from: String,
    pub to: String,
}

/// What a request for another length carries.
#[derive(Debug, Clone, Copy)]
pub struct TruncateReq {
    pub size: u64,
}

/// Which part of a file a request is about.
#[derive(Debug, Clone, Copy)]
pub struct FileQuery {
    pub offset: Option<u64>,
    pub size: Option<u64>,
}

/// What the file system tells of a file or a directory. The time of the last
/// change is in seconds since the epoch, where it is known.
#[derive(Debug, Clone, Copy, PartialEq, Eq, Structural)]
pub struct Stat {
    pub is_dir: bool,
    pub len: u64,
    pub modified: Option<u64>,
}

/// An entry of a directory.
#[derive(Debug)]
pub struct NamedStat {
    pub name: String,
    pub stat: Stat,
}

/// Something that has to be done with the file system.
#[derive(Debug, Clone, Copy, PartialEq, Eq, Structural)]
pub enum Task {
    /// Read the metadata.
    Stat,
    /// Read the directory.
    ReadDir,
    /// Open the file for reading.
    Open,
    /// Open the file for writing, making it where it is missing.
    OpenWrite,
    /// Open the file for writing; it has to be there.
    OpenExisting,
    /// Go to this position of the open file.
    Seek(u64),
    /// Write what the request carries into the open file.
    Receive,
    /// Make the open file so many bytes long.
    SetLen(u64),
    /// Make the directory, and those above it.
    MakeDirs,
    /// Make the directories above the path.
    MakeParents,
    /// Remove the directory and all that is in it.
    RemoveTree,
    /// Remove the file.
    RemoveFile,
}

/// What is answered.
#[derive(Debug)]
pub enum RootAnswer {
    /// This status alone.
    Status(u16),
    /// This status with a text.
    Text(u16, String),
    /// This status, and the cause of the failure in its own words.
    Failed(u16),
    /// The JSON form of a listing, with its tag; it may be kept for a moment.
    Stats { entries: Vec<FileStat>, etag: String },
    /// The JSON form of what is told of one file, with its tag; it may be kept
    /// for a moment.
    Stat { stat: FileStat, etag: String },
    /// So many bytes of the open file from here on, with the file's tag.
    Stream { len: u64, etag: String },
    /// The length of the file that was written.
    Written { size: u64 },
}

impl RootAnswer {
    /// The status that goes with the answer.
    pub fn status(&self) -> (s: u16)
        ensures
            s == match *self {
                RootAnswer::Status(code) => code,
                RootAnswer::Text(code, _) => code,
                RootAnswer::Failed(code) => code,
                RootAnswer::Written { .. } => 201,
                _ => 200,
            },
            *self matches RootAnswer::Status(code) ==> s == code,
            *self matches RootAnswer::Text(code, _) ==> s == code,
            *self matches RootAnswer::Failed(code) ==> s == code,
            *self is Written ==> s == 201,
            (*self is Stats || *self is Stat || *self is Stream) ==> s == 200,
    {
        match self {
            RootAnswer::Status(code) => *code,
            RootAnswer::Text(code, _) => *code,
            RootAnswer::Failed(code) => *code,
            RootAnswer::Written { .. } => 201,
            _ => 200,
        }
    }
}

/// What a handler wants next.
#[derive(Debug)]
pub enum RootNext {
    /// This has to be done at this path.
    Do { path: String, task: Task },
    /// What stands at one path has to get the other.
    Rename { from: String, to: String },
    /// This is the answer.
    Reply(RootAnswer),
}

/// A request's path without leading slashes; a request without a path is about
/// the root.
pub open spec fn relative(path: Option<&str>) -> Seq<char> {
    match path {
        Some(p) => trim_start(p@, '/'),
        None => Seq::empty(),
    }
}

/// What a path names below the root.
pub open spec fn resolved(state: RootState, path: Seq<char>) -> Seq<char> {
    resolved_path(state.remote_fs_root@, path, state.windows)
}

/// Why a path is refused, if it is: it goes up, or it leaves the root.
pub open spec fn refusal(state: RootState, path: Seq<char>) -> Option<Seq<char>> {
    if climbs(path, state.windows) {
        Some("Invalid path (.. not allowed)"@)
    } else if !under(resolved(state, path), state.remote_fs_root@, state.windows) {
        Some("Invalid path escape"@)
    } else {
        None
    }
}

/// The time of the last change, the epoch where it is not known.
pub open spec fn mtime(s: Stat) -> nat {
    match s.modified {
        Some(t) => t as nat,
        None => 0,
    }
}

/// The tag of a version: its length and the time of its last change.
pub open spec fn tag(len: nat, at: nat) -> Seq<char> {
    "W/\""@ + decimal(len) + "-"@ + hexadecimal(at) + "\""@
}

/// The handler wants `task` done at `path`.
pub open spec fn does(next: RootNext, path: Seq<char>, task: Task) -> bool {
    next matches RootNext::Do { path: p, task: t } && p@ == path && t == task
}

/// The handler answers with a status alone.
pub open spec fn answers(next: RootNext, status: u16) -> bool {
    next matches RootNext::Reply(RootAnswer::Status(s)) && s == status
}

/// The handler answers with a text.
pub open spec fn says(next: RootNext, status: u16, text: Seq<char>) -> bool {
    next matches RootNext::Reply(RootAnswer::Text(s, t)) && s == status && t@ == text
}

/// The handler answers with a failure of the file system.
pub open spec fn fails(next: RootNext) -> bool {
    next matches RootNext::Reply(RootAnswer::Failed(s)) && s == 500
}

/// The handler refuses a path and says why.
pub open spec fn refuses(next: RootNext, why: Option<Seq<char>>) -> bool {
    why matches Some(text) && says(next, 400, text)
}

/// A request's path without leading slashes.
fn relative_of(path: Option<&str>) -> (r: String)
    ensures
        r@ == relative(path),
{
    match path {
        Some(p) => owned(trim_start_char(p, '/')),
        None => String::new(),
    }
}

fn text_reply(status: u16, text: &str) -> (next: RootNext)
    ensures
        says(next, status, text@),
{
    RootNext::Reply(RootAnswer::Text(status, owned(text)))
}

/// The tag of a version.
pub fn etag_of(s: &Stat) -> (r: String)
    ensures
        r@ == tag(s.len as nat, mtime(*s)),
{
    let at: u64 = match s.modified {
        Some(t) => t,
        None => 0,
    };
    let mut r = owned("W/\"");
    r.append(render_decimal(s.len).as_str());
    r.append("-");
    r.append(render_hexadecimal(at).as_str());
    r.append("\"");
    r
}

/// The client holds the version with this tag.
pub open spec fn unchanged(if_none_match: Option<&str>, s: Stat) -> bool {
    if_none_match matches Some(h) && h@ == tag(s.len as nat, mtime(s))
}

/// What is told of a file.
pub open spec fn tells(f: FileStat, name: Seq<char>, path: Seq<char>, s: Stat) -> bool {
    &&& f.name@ == name
    &&& f.path@ == replaced(path, '\\', '/')
    &&& f.file_type@ == (if s.is_dir {
        "dir"@
    } else {
        "file"@
    })
    &&& f.size == s.len
    &&& f.timestamp == mtime(s)
    &&& f.permissions@ == (if s.is_dir {
        "rwxr-xr-x"@
    } else {
        "rw-r--r--"@
    })
}

/// What is told of a file.
fn tell(name: String, path: &str, s: &Stat) -> (f: FileStat)
    ensures
        tells(f, name@, path@, *s),
        f.name@ == name@ && f.size == s.len,
        f.file_type@ == "dir"@ <==> s.is_dir,
        s.modified matches Some(t) ==> f.timestamp == t,
        f.path@.len() == path@.len() && !f.path@.contains('\\'),
{
    proof {
        reveal_strlit("dir");
        reveal_strlit("file");
        assert("dir"@.len() == 3 && "file"@.len() == 4);
        crate::text::law_replaced(path@, '\\', '/');
    }
    FileStat {
        name,
        path: replace_char(path, '\\', '/'),
        file_type: if s.is_dir {
            owned("dir")
        } else {
            owned("file")
        },
        size: s.len,
        timestamp: match s.modified {
            Some(t) => t,
            None => 0,
        },
        permissions: if s.is_dir {
            owned("rwxr-xr-x")
        } else {
            owned("rw-r--r--")
        },
    }
}

/// The path of an entry of the directory `dir`.
pub open spec fn entry_path(dir: Seq<char>, name: Seq<char>) -> Seq<char> {
    if dir.len() == 0 {
        name
    } else {
        dir + "/"@ + name
    }
}

/// `stats` tell of the entries of the directory `dir`, in order.
pub open spec fn lists(stats: Seq<FileStat>, dir: Seq<char>, entries: Seq<NamedStat>) -> bool {
    &&& stats.len() == entries.len()
    &&& forall|i: int|
        0 <= i < stats.len() ==> #[trigger] tells(
            stats[i],
            entries[i].name@,
            entry_path(dir, entries[i].name@),
            entries[i].stat,
        )
}

/// Lists a directory, unless the client holds the listing already. `stat` is
/// `None` within where nothing stands at the path, `entries` for a directory
/// that could not be read.
pub fn handle_list(
    state: &RootState,
    path_opt: Option<&str>,
    if_none_match: Option<&str>,
    stat: Option<Option<Stat>>,
    entries: Option<Option<Vec<NamedStat>>>,
) -> (next: RootNext)
    ensures
        ({
            let path = relative(path_opt);
            let full = resolved(*state, path);
            if refusal(*state, path) is Some {
                refuses(next, refusal(*state, path))
            } else {
                match stat {
                    None => does(next, full, Task::Stat),
                    Some(None) => says(next, 404, "Not found"@),
                    Some(Some(s)) => if !s.is_dir {
                        says(next, 400, "Not a directory"@)
                    } else if unchanged(if_none_match, s) {
                        answers(next, 304)
                    } else {
                        match entries {
                            None => does(next, full, Task::ReadDir),
                            Some(None) => fails(next),
                            Some(Some(all)) => next matches RootNext::Reply(
                                RootAnswer::Stats { entries: l, etag },
                            ) && lists(l@, path, all@) && etag@ == tag(s.len as nat, mtime(s)),
                        }
                    },
                }
            }
        }),
        next matches RootNext::Reply(RootAnswer::Stats { entries: l, .. }) ==> (entries matches Some(
            Some(all),
        ) && l@.len() == all@.len() && forall|i: int|
            0 <= i < all@.len() ==> (#[trigger] l@[i]).name@ == all@[i].name@ && l@[i].size
                == all@[i].stat.len && (l@[i].file_type@ == "dir"@ <==> all@[i].stat.is_dir) && (
            all@[i].stat.modified matches Some(t) ==> l@[i].timestamp == t)),
        (next matches RootNext::Reply(RootAnswer::Text(c, _)) && c == 404) <==> refusal(*state, relative(path_opt)) is None && (stat matches Some(None)),
        next is Do ==> refusal(*state, relative(path_opt)) is None,
        next matches RootNext::Do { path, .. } ==> path@ == resolved_path(
            state.remote_fs_root@,
            relative(path_opt),
            state.windows,
        ),
{
    let path = relative_of(path_opt);
    let full = match resolve_under_root(state.remote_fs_root.as_str(), path.as_str(), state.windows) {
        Ok(p) => p,
        Err(e) => {
            return RootNext::Reply(RootAnswer::Text(400, e));
        },
    };
    let s = match stat {
        None => {
            return RootNext::Do { path: full, task: Task::Stat };
        },
        Some(None) => {
            return text_reply(404, "Not found");
        },
        Some(Some(s)) => s,
    };
    if !s.is_dir {
        return text_reply(400, "Not a directory");
    }
    let etag = etag_of(&s);
    if let Some(h) = if_none_match {
        if same_text(h, etag.as_str()) {
            return RootNext::Reply(RootAnswer::Status(304));
        }
    }
    let all = match entries {
        None => {
            return RootNext::Do { path: full, task: Task::ReadDir };
        },
        Some(None) => {
            return RootNext::Reply(RootAnswer::Failed(500));
        },
        Some(Some(all)) => all,
    };
    let mut l: Vec<FileStat> = Vec::new();
    for i in 0..all.len()
        invariant
            lists(l@, path@, all@.take(i as int)),
    {
        let ghost before = l@;
        let name = all[i].name.clone();
        let mut entry = path.clone();
        if entry.as_str().unicode_len() != 0 {
            entry.append("/");
        }
        entry.append(name.as_str());
        assert(entry@ =~= entry_path(path@, name@));
        l.push(tell(name, entry.as_str(), &all[i].stat));
        assert forall|k: int| 0 <= k < l@.len() implies #[trigger] tells(
            l@[k],
            all@.take(i as int + 1)[k].name@,
            entry_path(path@, all@.take(i as int + 1)[k].name@),
            all@.take(i as int + 1)[k].stat,
        ) by {
            if k < i {
                assert(l@[k] == before[k]);
                assert(all@.take(i as int + 1)[k] == all@.take(i as int)[k]);
            }
        }
    }
    assert(all@.take(all@.len() as int) =~= all@);
    proof {
        law_listed(l@, path@, all@);
    }
    RootNext::Reply(RootAnswer::Stats { entries: l, etag })
}

/// The name of what a path names: its last name, unless that goes up.
pub open spec fn file_name(path: Seq<char>, windows: bool) -> Seq<char> {
    let s = names(path, windows);
    if s.len() == 0 || s.last() == ".."@ {
        Seq::empty()
    } else {
        s.last()
    }
}

/// The name of what a path names.
fn file_name_of(path: &str, windows: bool) -> (r: String)
    ensures
        r@ == file_name(path@, windows),
{
    let s = names_of(path, windows);
    let n: usize = s.len();
    assert(texts(s@).len() == n);
    if n == 0 {
        return String::new();
    }
    assert(texts(s@).last() == s@[n - 1]@);
    if same_text(s[n - 1].as_str(), "..") {
        String::new()
    } else {
        s[n - 1].clone()
    }
}

/// Tells of a file, unless the client knows it already.
pub fn handle_stat(
    state: &RootState,
    path_opt: Option<&str>,
    if_none_match: Option<&str>,
    stat: Option<Option<Stat>>,
) -> (next: RootNext)
    ensures
        ({
            let path = relative(path_opt);
            let full = resolved(*state, path);
            if refusal(*state, path) is Some {
                refuses(next, refusal(*state, path))
            } else {
                match stat {
                    None => does(next, full, Task::Stat),
                    Some(None) => says(next, 404, "Not found"@),
                    Some(Some(s)) => if unchanged(if_none_match, s) {
                        answers(next, 304)
                    } else {
                        next matches RootNext::Reply(RootAnswer::Stat { stat: f, etag })
                            && tells(f, file_name(full, state.windows), path, s) && etag@ == tag(
                            s.len as nat,
                            mtime(s),
                        )
                    },
                }
            }
        }),
        next matches RootNext::Reply(RootAnswer::Stat { stat: f, .. }) ==> (stat matches Some(Some(s)) && f.size
            == s.len && (f.file_type@ == "dir"@ <==> s.is_dir) && (s.modified matches Some(t) ==> f.timestamp
            == t)),
        (next matches RootNext::Reply(RootAnswer::Text(c, _)) && c == 404) <==> refusal(*state, relative(path_opt)) is None && (stat matches Some(None)),
        (next matches RootNext::Reply(RootAnswer::Status(c)) && c == 304) ==> if_none_match is Some,
        next matches RootNext::Do { path, .. } ==> path@ == resolved_path(
            state.remote_fs_root@,
            relative(path_opt),
            state.windows,
        ),
{
    let path = relative_of(path_opt);
    let full = match resolve_under_root(state.remote_fs_root.as_str(), path.as_str(), state.windows) {
        Ok(p) => p,
        Err(e) => {
            return RootNext::Reply(RootAnswer::Text(400, e));
        },
    };
    let s = match stat {
        None => {
            return RootNext::Do { path: full, task: Task::Stat };
        },
        Some(None) => {
            return text_reply(404, "Not found");
        },
        Some(Some(s)) => s,
    };
    let etag = etag_of(&s);
    if let Some(h) = if_none_match {
        if same_text(h, etag.as_str()) {
            return RootNext::Reply(RootAnswer::Status(304));
        }
    }
    let name = file_name_of(full.as_str(), state.windows);
    RootNext::Reply(RootAnswer::Stat { stat: tell(name, path.as_str(), &s), etag })
}

/// The handler wants this done at `path`, or answers.
pub open spec fn wants(next: RootNext, path: Seq<char>, task: Option<Task>) -> bool {
    match task {
        Some(t) => does(next, path, t),
        None => next is Reply,
    }
}

/// What a read wants next, if it wants anything, of a file that the client does
/// not hold already.
pub open spec fn get_task(
    query: FileQuery,
    stat: Option<Option<Stat>>,
    opened: Option<bool>,
    sought: Option<bool>,
) -> Option<Task> {
    match stat {
        None => Some(Task::Stat),
        Some(None) => None,
        Some(Some(s)) => if s.is_dir {
            None
        } else {
            match opened {
                None => Some(Task::Open),
                Some(false) => None,
                Some(true) => match sought {
                    None => Some(
                        Task::Seek(window(query.offset, query.size, s.len as nat).0 as u64),
                    ),
                    Some(_) => None,
                },
            }
        },
    }
}

/// Reads a part of a file, unless the client holds the file already. The end of
/// the part has to fit 64 bits.
pub fn handle_get_file(
    state: &RootState,
    path_opt: Option<&str>,
    query: FileQuery,
    if_none_match: Option<&str>,
    stat: Option<Option<Stat>>,
    opened: Option<bool>,
    sought: Option<bool>,
) -> (next: RootNext)
    requires
        stat matches Some(Some(s)) ==> (query.offset matches Some(o) ==> (query.size matches Some(
            n,
        ) ==> (o < s.len ==> o + n <= u64::MAX))),
    ensures
        ({
            let path = relative(path_opt);
            let full = resolved(*state, path);
            if refusal(*state, path) is Some {
                refuses(next, refusal(*state, path))
            } else {
                match stat {
                    None => does(next, full, Task::Stat),
                    Some(None) => says(next, 404, "Not found"@),
                    Some(Some(s)) => if s.is_dir {
                        says(next, 400, "Is a directory"@)
                    } else if unchanged(if_none_match, s) {
                        answers(next, 304)
                    } else {
                        let (from, n) = window(query.offset, query.size, s.len as nat);
                        match opened {
                            None => does(next, full, Task::Open),
                            Some(false) => fails(next),
                            Some(true) => match sought {
                                None => does(next, full, Task::Seek(from as u64)),
                                Some(false) => fails(next),
                                Some(true) => next matches RootNext::Reply(
                                    RootAnswer::Stream { len, etag },
                                ) && len == n && etag@ == tag(s.len as nat, mtime(s)),
                            },
                        }
                    },
                }
            }
        }),
        refusal(*state, relative(path_opt)) is None && !(stat matches Some(Some(s)) && unchanged(if_none_match, s))
            ==> wants(
            next,
            resolved(*state, relative(path_opt)),
            get_task(query, stat, opened, sought),
        ),
        next matches RootNext::Reply(RootAnswer::Stream { len, .. }) ==> (stat matches Some(Some(s)) && len
            <= s.len && (query.size matches Some(n) ==> len <= n) && (query.offset is None && query.size is None
            ==> len == s.len)) && opened == Some(true) && sought == Some(true),
        next matches RootNext::Do { task: Task::Seek(at), .. } ==> (stat matches Some(Some(s)) && at <= s.len)
            && (query.offset is None ==> at == 0) && (query.offset matches Some(o) ==> at == o || at == 0),
        (next matches RootNext::Reply(RootAnswer::Text(c, _)) && c == 404) <==> refusal(*state, relative(path_opt)) is None && (stat matches Some(None)),
        (next matches RootNext::Reply(RootAnswer::Status(c)) && c == 304) ==> if_none_match is Some,
        next matches RootNext::Do { path, .. } ==> path@ == resolved_path(
            state.remote_fs_root@,
            relative(path_opt),
            state.windows,
        ),
        next matches RootNext::Do { task: Task::Seek(at), .. } ==> (stat matches Some(Some(s)) && (
        query.offset matches Some(o) ==> (o < s.len ==> at == o))),
        next matches RootNext::Reply(RootAnswer::Stream { len, .. }) ==> (stat matches Some(Some(s)) ==> {
            let at = match query.offset {
                Some(o) => o as int,
                None => 0int,
            };
            &&& at >= s.len ==> len == 0
            &&& at < s.len && query.size is None ==> len == s.len - at
            &&& at < s.len ==> (query.size matches Some(n) ==> len == n || (len < n && len == s.len - at))
        }),
{
    let path = relative_of(path_opt);
    let full = match resolve_under_root(state.remote_fs_root.as_str(), path.as_str(), state.windows) {
        Ok(p) => p,
        Err(e) => {
            return RootNext::Reply(RootAnswer::Text(400, e));
        },
    };
    let s = match stat {
        None => {
            return RootNext::Do { path: full, task: Task::Stat };
        },
        Some(None) => {
            return text_reply(404, "Not found");
        },
        Some(Some(s)) => s,
    };
    if s.is_dir {
        return text_reply(400, "Is a directory");
    }
    let etag = etag_of(&s);
    if let Some(h) = if_none_match {
        if same_text(h, etag.as_str()) {
            return RootNext::Reply(RootAnswer::Status(304));
        }
    }
    let (from, n) = read_window(query.offset, query.size, s.len);
    match opened {
        None => {
            return RootNext::Do { path: full, task: Task::Open };
        },
        Some(false) => {
            return RootNext::Reply(RootAnswer::Failed(500));
        },
        Some(true) => {},
    }
    match sought {
        None => RootNext::Do { path: full, task: Task::Seek(from) },
        Some(false) => RootNext::Reply(RootAnswer::Failed(500)),
        Some(true) => RootNext::Reply(RootAnswer::Stream { len: n, etag }),
    }
}

/// What a write wants next, if it wants anything.
pub open spec fn put_task(
    query: FileQuery,
    before: Option<Option<Stat>>,
    parents: Option<bool>,
    opened: Option<bool>,
    sought: Option<bool>,
    received: Option<bool>,
    after: bool,
) -> Option<Task> {
    if before is None {
        Some(Task::Stat)
    } else if before->Some_0 matches Some(s) && s.is_dir {
        None
    } else if parents is None {
        Some(Task::MakeParents)
    } else if parents == Some(false) {
        None
    } else if opened is None {
        Some(Task::OpenWrite)
    } else if opened == Some(false) {
        None
    } else if sought is None {
        Some(
            Task::Seek(
                match query.offset {
                    Some(o) => o,
                    None => 0,
                },
            ),
        )
    } else if sought == Some(false) {
        None
    } else if received is None {
        Some(Task::Receive)
    } else if received == Some(false) || after {
        None
    } else {
        Some(Task::Stat)
    }
}

/// Writes what the request carries into a file, from `offset` on, or from its
/// beginning. `before` tells what stood at the path; `after` how long the file
/// is when all is written.
pub fn handle_put_file(
    state: &RootState,
    path_opt: Option<&str>,
    query: FileQuery,
    before: Option<Option<Stat>>,
    parents: Option<bool>,
    opened: Option<bool>,
    sought: Option<bool>,
    received: Option<bool>,
    after: Option<Option<Stat>>,
) -> (next: RootNext)
    ensures
        ({
            let path = relative(path_opt);
            let full = resolved(*state, path);
            if refusal(*state, path) is Some {
                refuses(next, refusal(*state, path))
            } else if before is None {
                does(next, full, Task::Stat)
            } else if before->Some_0 is Some && before->Some_0->Some_0.is_dir {
                says(next, 400, "Is a directory"@)
            } else {
                match parents {
                    None => does(next, full, Task::MakeParents),
                    Some(false) => fails(next),
                    Some(true) => match opened {
                        None => does(next, full, Task::OpenWrite),
                        Some(false) => fails(next),
                        Some(true) => match sought {
                            None => does(
                                next,
                                full,
                                Task::Seek(
                                    match query.offset {
                                        Some(o) => o,
                                        None => 0,
                                    },
                                ),
                            ),
                            Some(false) => fails(next),
                            Some(true) => match received {
                                None => does(next, full, Task::Receive),
                                Some(false) => fails(next),
                                Some(true) => match after {
                                    None => does(next, full, Task::Stat),
                                    Some(None) => fails(next),
                                    Some(Some(s)) => next matches RootNext::Reply(
                                        RootAnswer::Written { size },
                                    ) && size == s.len,
                                },
                            },
                        },
                    },
                }
            }
        }),
        refusal(*state, relative(path_opt)) is None ==> wants(
            next,
            resolved(*state, relative(path_opt)),
            put_task(query, before, parents, opened, sought, received, after is Some),
        ),
        next matches RootNext::Reply(RootAnswer::Written { size }) ==> refusal(*state, relative(path_opt)) is None && (after matches Some(Some(s)) && size
            == s.len) && received == Some(true) && sought == Some(true) && opened == Some(true) && parents
            == Some(true),
        next matches RootNext::Do { task: Task::Seek(at), .. } ==> (query.offset matches Some(o) ==> at == o)
            && (query.offset is None ==> at == 0),
        refusal(*state, relative(path_opt)) is None && (before matches Some(b) && (b matches Some(s) ==> !s.is_dir)) && parents == Some(true) && opened
            == Some(true) && sought == Some(true) && received == Some(true) && (after matches Some(Some(_)))
            ==> (next matches RootNext::Reply(RootAnswer::Written { .. })),
        next matches RootNext::Reply(RootAnswer::Status(_)) ==> false,
        next matches RootNext::Do { path, .. } ==> path@ == resolved_path(
            state.remote_fs_root@,
            relative(path_opt),
            state.windows,
        ),
{
    let path = relative_of(path_opt);
    let full = match resolve_under_root(state.remote_fs_root.as_str(), path.as_str(), state.windows) {
        Ok(p) => p,
        Err(e) => {
            return RootNext::Reply(RootAnswer::Text(400, e));
        },
    };
    match before {
        None => {
            return RootNext::Do { path: full, task: Task::Stat };
        },
        Some(Some(s)) => {
            if s.is_dir {
                return text_reply(400, "Is a directory");
            }
        },
        Some(None) => {},
    }
    match parents {
        None => {
            return RootNext::Do { path: full, task: Task::MakeParents };
        },
        Some(false) => {
            return RootNext::Reply(RootAnswer::Failed(500));
        },
        Some(true) => {},
    }
    match opened {
        None => {
            return RootNext::Do { path: full, task: Task::OpenWrite };
        },
        Some(false) => {
            return RootNext::Reply(RootAnswer::Failed(500));
        },
        Some(true) => {},
    }
    let offset: u64 = match query.offset {
        Some(o) => o,
        None => 0,
    };
    match sought {
        None => {
            return RootNext::Do { path: full, task: Task::Seek(offset) };
        },
        Some(false) => {
            return RootNext::Reply(RootAnswer::Failed(500));
        },
        Some(true) => {},
    }
    match received {
        None => RootNext::Do { path: full, task: Task::Receive },
        Some(false) => RootNext::Reply(RootAnswer::Failed(500)),
        Some(true) => match after {
            None => RootNext::Do { path: full, task: Task::Stat },
            Some(None) => RootNext::Reply(RootAnswer::Failed(500)),
            Some(Some(s)) => RootNext::Reply(RootAnswer::Written { size: s.len }),
        },
    }
}

/// Removes a file, or a directory with all that is in it. An empty path, which
/// names the root, is refused.
pub fn handle_delete(
    state: &RootState,
    path_opt: Option<&str>,
    stat: Option<Option<Stat>>,
    removed: Option<bool>,
) -> (next: RootNext)
    ensures
        ({
            let path = relative(path_opt);
            let full = resolved(*state, path);
            if path.len() == 0 {
                says(next, 409, "Cannot remove root"@)
            } else if refusal(*state, path) is Some {
                refuses(next, refusal(*state, path))
            } else {
                match stat {
                    None => does(next, full, Task::Stat),
                    Some(None) => says(next, 404, "Not found"@),
                    Some(Some(s)) => match removed {
                        None => does(
                            next,
                            full,
                            if s.is_dir {
                                Task::RemoveTree
                            } else {
                                Task::RemoveFile
                            },
                        ),
                        Some(false) => fails(next),
                        Some(true) => answers(next, 200),
                    },
                }
            }
        }),
        (next matches RootNext::Reply(RootAnswer::Status(c)) && 200 <= c <= 299) <==> relative(path_opt).len() > 0
            && refusal(*state, relative(path_opt)) is None && (stat matches Some(Some(_))) && removed == Some(true),
        (next matches RootNext::Do { task: Task::RemoveTree, .. }) ==> (stat matches Some(Some(s)) && s.is_dir),
        (next matches RootNext::Do { task: Task::RemoveFile, .. }) ==> (stat matches Some(Some(s)) && !s.is_dir),
        relative(path_opt).len() == 0 ==> next is Reply,
        next matches RootNext::Do { path, .. } ==> path@ == resolved_path(
            state.remote_fs_root@,
            relative(path_opt),
            state.windows,
        ),
        next matches RootNext::Reply(RootAnswer::Status(c)) ==> c == 200,
        next matches RootNext::Reply(RootAnswer::Failed(c)) ==> c == 500 && removed == Some(false),
{
    let path = relative_of(path_opt);
    if path.as_str().unicode_len() == 0 {
        return text_reply(409, "Cannot remove root");
    }
    let full = match resolve_under_root(state.remote_fs_root.as_str(), path.as_str(), state.windows) {
        Ok(p) => p,
        Err(e) => {
            return RootNext::Reply(RootAnswer::Text(400, e));
        },
    };
    match stat {
        None => RootNext::Do { path: full, task: Task::Stat },
        Some(None) => text_reply(404, "Not found"),
        Some(Some(s)) => match removed {
            None => if s.is_dir {
                RootNext::Do { path: full, task: Task::RemoveTree }
            } else {
                RootNext::Do { path: full, task: Task::RemoveFile }
            },
            Some(false) => RootNext::Reply(RootAnswer::Failed(500)),
            Some(true) => RootNext::Reply(RootAnswer::Status(200)),
        },
    }
}

/// Makes a directory, and those above it, where nothing stands yet.
pub fn handle_mkdir(
    state: &RootState,
    path_opt: Option<&str>,
    stat: Option<Option<Stat>>,
    made: Option<bool>,
) -> (next: RootNext)
    ensures
        ({
            let path = relative(path_opt);
            let full = resolved(*state, path);
            if refusal(*state, path) is Some {
                refuses(next, refusal(*state, path))
            } else {
                match stat {
                    None => does(next, full, Task::Stat),
                    Some(Some(_)) => says(next, 409, "Path already exists"@),
                    Some(None) => match made {
                        None => does(next, full, Task::MakeDirs),
                        Some(false) => fails(next),
                        Some(true) => answers(next, 201),
                    },
                }
            }
        }),
        (next matches RootNext::Reply(RootAnswer::Status(c)) && 200 <= c <= 299) <==> refusal(*state, relative(path_opt)) is None && (
        stat matches Some(None)) && made == Some(true),
        (next matches RootNext::Do { task: Task::MakeDirs, .. }) ==> (stat matches Some(None)),
        next matches RootNext::Do { path, .. } ==> path@ == resolved_path(
            state.remote_fs_root@,
            relative(path_opt),
            state.windows,
        ),
        next matches RootNext::Reply(RootAnswer::Status(c)) ==> c == 201,
        next matches RootNext::Reply(RootAnswer::Failed(c)) ==> c == 500 && made == Some(false),
        (next matches RootNext::Reply(RootAnswer::Text(c, _)) && c == 409) <==> refusal(
            *state,
            relative(path_opt),
        ) is None && (stat matches Some(Some(_))),
{
    let path = relative_of(path_opt);
    let full = match resolve_under_root(state.remote_fs_root.as_str(), path.as_str(), state.windows) {
        Ok(p) => p,
        Err(e) => {
            return RootNext::Reply(RootAnswer::Text(400, e));
        },
    };
    match stat {
        None => RootNext::Do { path: full, task: Task::Stat },
        Some(Some(_)) => text_reply(409, "Path already exists"),
        Some(None) => match made {
            None => RootNext::Do { path: full, task: Task::MakeDirs },
            Some(false) => RootNext::Reply(RootAnswer::Failed(500)),
            Some(true) => RootNext::Reply(RootAnswer::Status(201)),
        },
    }
}

/// Gives what stands at one path another, once the directories above the latter
/// are there.
pub fn handle_rename(
    state: &RootState,
    request: &RenameReq,
    stat: Option<Option<Stat>>,
    parents: Option<bool>,
    renamed: Option<bool>,
) -> (next: RootNext)
    ensures
        ({
            let from = resolved(*state, request.from@);
            let to = resolved(*state, request.to@);
            if refusal(*state, request.from@) is Some {
                refuses(next, refusal(*state, request.from@))
            } else if refusal(*state, request.to@) is Some {
                refuses(next, refusal(*state, request.to@))
            } else {
                match stat {
                    None => does(next, from, Task::Stat),
                    Some(None) => says(next, 404, "Source not found"@),
                    Some(Some(_)) => match parents {
                        None => does(next, to, Task::MakeParents),
                        Some(false) => fails(next),
                        Some(true) => match renamed {
                            None => next matches RootNext::Rename { from: f, to: t } && f@ == from
                                && t@ == to,
                            Some(false) => fails(next),
                            Some(true) => answers(next, 200),
                        },
                    },
                }
            }
        }),
        (next matches RootNext::Reply(RootAnswer::Status(c)) && 200 <= c <= 299) <==> refusal(
            *state,
            request.from@,
        ) is None && refusal(*state, request.to@) is None && (stat matches Some(Some(_))) && parents == Some(
            true,
        ) && renamed == Some(true),
        next matches RootNext::Rename { from, to } ==> from@ == resolved(*state, request.from@) && to@
            == resolved(*state, request.to@),
        next matches RootNext::Reply(RootAnswer::Status(c)) ==> c == 200,
        next matches RootNext::Reply(RootAnswer::Failed(c)) ==> c == 500,
        next matches RootNext::Do { path, task } ==> (task == Task::Stat ==> path@ == resolved(
            *state,
            request.from@,
        )) && (task == Task::MakeParents ==> path@ == resolved(*state, request.to@)),
        (next matches RootNext::Reply(RootAnswer::Text(c, _)) && c == 404) <==> refusal(
            *state,
            request.from@,
        ) is None && refusal(*state, request.to@) is None && (stat matches Some(None)),
{
    let from = match resolve_under_root(state.remote_fs_root.as_str(), request.from.as_str(), state.windows) {
        Ok(p) => p,
        Err(e) => {
            return RootNext::Reply(RootAnswer::Text(400, e));
        },
    };
    let to = match resolve_under_root(state.remote_fs_root.as_str(), request.to.as_str(), state.windows) {
        Ok(p) => p,
        Err(e) => {
            return RootNext::Reply(RootAnswer::Text(400, e));
        },
    };
    match stat {
        None => RootNext::Do { path: from, task: Task::Stat },
        Some(None) => text_reply(404, "Source not found"),
        Some(Some(_)) => match parents {
            None => RootNext::Do { path: to, task: Task::MakeParents },
            Some(false) => RootNext::Reply(RootAnswer::Failed(500)),
            Some(true) => match renamed {
                None => RootNext::Rename { from, to },
                Some(false) => RootNext::Reply(RootAnswer::Failed(500)),
                Some(true) => RootNext::Reply(RootAnswer::Status(200)),
            },
        },
    }
}

/// What a request for another length wants next, if it wants anything.
pub open spec fn truncate_task(
    request: TruncateReq,
    stat: Option<Option<Stat>>,
    opened: Option<bool>,
    resized: Option<bool>,
) -> Option<Task> {
    match stat {
        None => Some(Task::Stat),
        Some(None) => None,
        Some(Some(s)) => if s.is_dir {
            None
        } else {
            match opened {
                None => Some(Task::OpenExisting),
                Some(false) => None,
                Some(true) => match resized {
                    None => Some(Task::SetLen(request.size)),
                    Some(_) => None,
                },
            }
        },
    }
}

/// Makes a file so many bytes long.
pub fn handle_truncate(
    state: &RootState,
    path_opt: Option<&str>,
    request: TruncateReq,
    stat: Option<Option<Stat>>,
    opened: Option<bool>,
    resized: Option<bool>,
) -> (next: RootNext)
    ensures
        ({
            let path = relative(path_opt);
            let full = resolved(*state, path);
            if refusal(*state, path) is Some {
                refuses(next, refusal(*state, path))
            } else {
                match stat {
                    None => does(next, full, Task::Stat),
                    Some(None) => says(next, 404, "Not found"@),
                    Some(Some(s)) => if s.is_dir {
                        says(next, 400, "Is a directory"@)
                    } else {
                        match opened {
                            None => does(next, full, Task::OpenExisting),
                            Some(false) => fails(next),
                            Some(true) => match resized {
                                None => does(next, full, Task::SetLen(request.size)),
                                Some(false) => fails(next),
                                Some(true) => answers(next, 200),
                            },
                        }
                    },
                }
            }
        }),
        refusal(*state, relative(path_opt)) is None ==> wants(
            next,
            resolved(*state, relative(path_opt)),
            truncate_task(request, stat, opened, resized),
        ),
        (next matches RootNext::Reply(RootAnswer::Status(c)) && 200 <= c <= 299) <==> refusal(*state, relative(path_opt)) is None && (
        stat matches Some(Some(s)) && !s.is_dir) && opened == Some(true) && resized == Some(true),
        next matches RootNext::Do { task: Task::SetLen(n), .. } ==> n == request.size,
        next matches RootNext::Do { path, .. } ==> path@ == resolved_path(
            state.remote_fs_root@,
            relative(path_opt),
            state.windows,
        ),
        next matches RootNext::Reply(RootAnswer::Status(c)) ==> c == 200,
        (next matches RootNext::Reply(RootAnswer::Text(c, _)) && c == 404) <==> refusal(
            *state,
            relative(path_opt),
        ) is None && (stat matches Some(None)),
{
    let path = relative_of(path_opt);
    let full = match resolve_under_root(state.remote_fs_root.as_str(), path.as_str(), state.windows) {
        Ok(p) => p,
        Err(e) => {
            return RootNext::Reply(RootAnswer::Text(400, e));
        },
    };
    match stat {
        None => RootNext::Do { path: full, task: Task::Stat },
        Some(None) => text_reply(404, "Not found"),
        Some(Some(s)) => if s.is_dir {
            text_reply(400, "Is a directory")
        } else {
            match opened {
                None => RootNext::Do { path: full, task: Task::OpenExisting },
                Some(false) => RootNext::Reply(RootAnswer::Failed(500)),
                Some(true) => match resized {
                    None => RootNext::Do { path: full, task: Task::SetLen(request.size) },
                    Some(false) => RootNext::Reply(RootAnswer::Failed(500)),
                    Some(true) => RootNext::Reply(RootAnswer::Status(200)),
                },
            }
        },
    }
}

/// Different numbers have different hexadecimal digits.
proof fn lemma_hexadecimal_injective(a: nat, b: nat)
    requires
        hexadecimal(a) == hexadecimal(b),
    ensures
        a == b,
    decreases a,
{
    let s = hexadecimal(a);
    assert(s.len() > 0);
    lemma_hexadecimal_len(a);
    lemma_hexadecimal_len(b);
    let da = if a < 16 {
        a
    } else {
        a % 16
    };
    let db = if b < 16 {
        b
    } else {
        b % 16
    };
    assert(s.last() == digit_char(da));
    assert(s.last() == digit_char(db));
    assert(da == db);
    if a >= 16 {
        assert(s.drop_last() =~= hexadecimal(a / 16));
        assert(b >= 16);
        assert(hexadecimal(b).drop_last() =~= hexadecimal(b / 16));
        lemma_hexadecimal_injective(a / 16, b / 16);
    } else {
        assert(b < 16);
    }
}

/// Small numbers have one digit, all others more.
proof fn lemma_hexadecimal_len(n: nat)
    ensures
        n < 16 ==> hexadecimal(n).len() == 1,
        n >= 16 ==> hexadecimal(n).len() > 1,
    decreases n,
{
    if n >= 16 {
        lemma_hexadecimal_len(n / 16);
    }
}

/// The tag tells versions apart: two files, or two versions of one, have the
/// same tag only if they are of the same length and changed at the same time.
/// So a client is told that nothing changed only where neither did.
pub proof fn law_tag_identifies(len1: nat, at1: nat, len2: nat, at2: nat)
    requires
        tag(len1, at1) == tag(len2, at2),
    ensures
        len1 == len2,
        at1 == at2,
{
    reveal_strlit("W/\"");
    reveal_strlit("-");
    reveal_strlit("\"");
    let (a, b) = (decimal(len1), hexadecimal(at1));
    let (c, d) = (decimal(len2), hexadecimal(at2));
    let t = tag(len1, at1);
    let body = t.subrange(3, t.len() - 1);
    assert(body =~= a.push('-') + b);
    assert(body =~= c.push('-') + d);
    lemma_decimal_digits(len1);
    lemma_decimal_digits(len2);
    lemma_digits_plain(a);
    lemma_digits_plain(c);
    lemma_split_at(a, b, '-');
    lemma_split_at(c, d, '-');
    lemma_split_single(a, '-');
    lemma_split_single(c, '-');
    assert(split(body, '-')[0] == a);
    assert(split(body, '-')[0] == c);
    assert(len1 == digits_value(a, 10) && len2 == digits_value(c, 10));
    assert(b =~= body.skip(a.len() as int + 1));
    assert(d =~= body.skip(c.len() as int + 1));
    lemma_hexadecimal_injective(at1, at2);
}

/// The open file once all that a write of `data` still wants was done and went
/// well. `found` is what stood at the path before.
pub open spec fn put_from(
    query: FileQuery,
    data: Seq<u8>,
    found: Option<Stat>,
    f: OpenFile,
    before: Option<Option<Stat>>,
    parents: Option<bool>,
    opened: Option<bool>,
    sought: Option<bool>,
    received: Option<bool>,
) -> OpenFile
    decreases
            left(before is None) + left(parents is None) + left(opened is None) + left(
                sought is None,
            ) + left(received is None),
{
    match put_task(query, before, parents, opened, sought, received, false) {
        Some(Task::Stat) => if before is None {
            put_from(query, data, found, f, Some(found), parents, opened, sought, received)
        } else {
            f
        },
        Some(Task::MakeParents) => put_from(
            query,
            data,
            found,
            f,
            before,
            Some(true),
            opened,
            sought,
            received,
        ),
        Some(Task::OpenWrite) => put_from(
            query,
            data,
            found,
            begun(f.content),
            before,
            parents,
            Some(true),
            sought,
            received,
        ),
        Some(Task::Seek(o)) => put_from(
            query,
            data,
            found,
            OpenFile { at: o as nat, ..f },
            before,
            parents,
            opened,
            Some(true),
            received,
        ),
        Some(Task::Receive) => put_from(
            query,
            data,
            found,
            took_in(f, data),
            before,
            parents,
            opened,
            sought,
            Some(true),
        ),
        _ => f,
    }
}

/// The bytes that a read answers once all that it still wants was done and went
/// well. `found` is what is told of the file.
pub open spec fn get_from(
    query: FileQuery,
    found: Stat,
    f: OpenFile,
    stat: Option<Option<Stat>>,
    opened: Option<bool>,
    sought: Option<bool>,
) -> Seq<u8>
    decreases left(stat is None) + left(opened is None) + left(sought is None),
{
    match get_task(query, stat, opened, sought) {
        Some(Task::Stat) => get_from(query, found, f, Some(Some(found)), opened, sought),
        Some(Task::Open) => get_from(query, found, begun(f.content), stat, Some(true), sought),
        Some(Task::Seek(o)) => get_from(
            query,
            found,
            OpenFile { at: o as nat, ..f },
            stat,
            opened,
            Some(true),
        ),
        _ => rest(f, window(query.offset, query.size, found.len as nat).1),
    }
}

/// What a file holds once all that a request for another length still wants was
/// done and went well.
pub open spec fn truncate_from(
    request: TruncateReq,
    found: Stat,
    content: Seq<u8>,
    stat: Option<Option<Stat>>,
    opened: Option<bool>,
    done: Option<bool>,
) -> Seq<u8>
    decreases left(stat is None) + left(opened is None) + left(done is None),
{
    match truncate_task(request, stat, opened, done) {
        Some(Task::Stat) => truncate_from(
            request,
            found,
            content,
            Some(Some(found)),
            opened,
            done,
        ),
        Some(Task::OpenExisting) => truncate_from(
            request,
            found,
            content,
            stat,
            Some(true),
            done,
        ),
        Some(Task::SetLen(n)) => truncate_from(
            request,
            found,
            resized(content, n as nat),
            stat,
            opened,
            Some(true),
        ),
        _ => content,
    }
}

/// What a write of `data` makes of a file: the rest of it stays.
pub open spec fn overwritten(offset: Option<u64>, content: Seq<u8>, data: Seq<u8>) -> Seq<u8> {
    if data.len() == 0 {
        content
    } else {
        spliced(
            content,
            match offset {
                Some(o) => o as int,
                None => 0,
            },
            data,
        )
    }
}

/// The part of a file that a request is about, as far as there is any.
pub open spec fn part(query: FileQuery, content: Seq<u8>) -> Seq<u8> {
    slice(
        content,
        match query.offset {
            Some(o) => o as int,
            None => 0,
        },
        match query.size {
            Some(n) => n as int,
            None => content.len() as int,
        },
    )
}

/// A write that goes well puts what it carries at its place in the file, and
/// changes nothing else. A file that was missing held nothing.
pub proof fn law_put_effect(
    query: FileQuery,
    found: Option<Stat>,
    content: Seq<u8>,
    data: Seq<u8>,
)
    requires
        found matches Some(s) ==> !s.is_dir,
    ensures
        put_from(query, data, found, begun(content), None, None, None, None, None).content
            == overwritten(query.offset, content, data),
{
    reveal_with_fuel(put_from, 7);
}

/// A read that goes well answers the part of the file that was asked for, as far
/// as there is any.
pub proof fn law_get_content(query: FileQuery, found: Stat, content: Seq<u8>)
    requires
        !found.is_dir,
        found.len == content.len(),
    ensures
        get_from(query, found, begun(content), None, None, None) == part(query, content),
{
    reveal_with_fuel(get_from, 5);
    law_window_bytes(content, query.offset, query.size);
}

/// A request for another length that goes well gives the file this length.
pub proof fn law_truncate_effect(request: TruncateReq, found: Stat, content: Seq<u8>)
    requires
        !found.is_dir,
    ensures
        truncate_from(request, found, content, None, None, None) == resized(
            content,
            request.size as nat,
        ),
{
    reveal_with_fuel(truncate_from, 5);
}

/// What was written is what is read back from the same place.
pub proof fn law_put_then_get(offset: Option<u64>, content: Seq<u8>, data: Seq<u8>)
    requires
        data.len() <= u64::MAX,
    ensures
        part(
            FileQuery { offset, size: Some(data.len() as u64) },
            overwritten(offset, content, data),
        ) == data,
{
    let from = match offset {
        Some(o) => o as nat,
        None => 0,
    };
    if data.len() == 0 {
        assert(slice(content, from as int, 0) =~= data);
    } else {
        law_write_then_read(content, from, data);
    }
}

/// A write leaves what is read from elsewhere as it was.
pub proof fn law_put_elsewhere(offset: u64, content: Seq<u8>, data: Seq<u8>, from: u64, n: u64)
    requires
        from + n <= content.len(),
        from + n <= offset || offset + data.len() <= from,
    ensures
        part(
            FileQuery { offset: Some(from), size: Some(n) },
            overwritten(Some(offset), content, data),
        ) == part(FileQuery { offset: Some(from), size: Some(n) }, content),
{
    law_write_elsewhere(content, offset as nat, data, from as nat, n as nat);
}

/// What is told of a file is what the file system said of it: its name, its
/// length, whether it is a directory, and when it changed. Its path has forward
/// slashes only.
pub proof fn law_told(f: FileStat, name: Seq<char>, path: Seq<char>, s: Stat)
    requires
        tells(f, name, path, s),
    ensures
        f.name@ == name,
        f.size == s.len,
        f.file_type@ == "dir"@ <==> s.is_dir,
        f.file_type@ == "file"@ <==> !s.is_dir,
        s.modified matches Some(t) ==> f.timestamp == t,
        s.modified is None ==> f.timestamp == 0,
        f.path@.len() == path.len(),
        !f.path@.contains('\\'),
        !path.contains('\\') ==> f.path@ == path,
        s.is_dir ==> f.permissions@ == "rwxr-xr-x"@,
{
    reveal_strlit("dir");
    reveal_strlit("file");
    assert("dir"@.len() == 3 && "file"@.len() == 4);
    crate::text::law_replaced(path, '\\', '/');
}

/// Every entry of a listing says of itself what the file system said, one for
/// one, and its path leads from the directory to it.
pub proof fn law_listed(stats: Seq<FileStat>, dir: Seq<char>, entries: Seq<NamedStat>)
    requires
        lists(stats, dir, entries),
    ensures
        stats.len() == entries.len(),
        forall|i: int|
            0 <= i < entries.len() ==> (#[trigger] stats[i]).name@ == entries[i].name@
                && stats[i].size == entries[i].stat.len && (stats[i].file_type@ == "dir"@
                <==> entries[i].stat.is_dir) && (entries[i].stat.modified matches Some(t)
                ==> stats[i].timestamp == t),
        forall|i: int|
            0 <= i < entries.len() && dir.len() == 0 ==> (#[trigger] stats[i]).path@.len()
                == entries[i].name@.len(),
        forall|i: int|
            0 <= i < entries.len() && dir.len() > 0 ==> (#[trigger] stats[i]).path@.len()
                == dir.len() + 1 + entries[i].name@.len(),
{
    reveal_strlit("/");
    assert forall|i: int| 0 <= i < entries.len() implies (#[trigger] stats[i]).name@
        == entries[i].name@ && stats[i].size == entries[i].stat.len && (stats[i].file_type@
        == "dir"@ <==> entries[i].stat.is_dir) && (entries[i].stat.modified matches Some(t)
        ==> stats[i].timestamp == t) && stats[i].path@.len() == entry_path(
        dir,
        entries[i].name@,
    ).len() by {
        assert(tells(
            stats[i],
            entries[i].name@,
            entry_path(dir, entries[i].name@),
            entries[i].stat,
        ));
        law_told(
            stats[i],
            entries[i].name@,
            entry_path(dir, entries[i].name@),
            entries[i].stat,
        );
    }
}

/// A write puts each byte at its place, from the beginning where no offset is
/// named, keeps every byte of the file elsewhere, and fills a gap with zeros: it
/// does not shorten the file.
pub proof fn law_overwritten(offset: Option<u64>, content: Seq<u8>, data: Seq<u8>)
    ensures
        ({
            let from = match offset {
                Some(o) => o as int,
                None => 0,
            };
            let after = overwritten(offset, content, data);
            &&& data.len() == 0 ==> after == content
            &&& data.len() > 0 ==> after.len() == (if content.len() > from + data.len() {
                content.len() as int
            } else {
                from + data.len()
            })
            &&& forall|i: int| 0 <= i < data.len() ==> after[from + i] == #[trigger] data[i]
            &&& forall|i: int|
                0 <= i < content.len() && !(from <= i < from + data.len()) ==> after[i]
                    == #[trigger] content[i]
            &&& data.len() > 0 ==> forall|i: int|
                content.len() <= i < from ==> #[trigger] after[i] == 0
        }),
{
}

/// A read gives the bytes of the file that stand there, one for one, as many as
/// were asked for unless the file ends before: all of them where nothing else is
/// said.
pub proof fn law_part(query: FileQuery, content: Seq<u8>)
    ensures
        query.offset is None && query.size is None ==> part(query, content) == content,
        query.offset matches Some(o) ==> forall|i: int|
            0 <= i < part(query, content).len() ==> #[trigger] part(query, content)[i] == content[o
                + i],
        query.offset matches Some(o) ==> (query.size is None && o <= content.len() ==> part(
            query,
            content,
        ) == content.skip(o as int)),
        query.offset matches Some(o) ==> (query.size matches Some(n) ==> (o + n <= content.len()
            ==> part(query, content).len() == n)),
        query.offset is None ==> (query.size matches Some(n) ==> (n <= content.len() ==> part(
            query,
            content,
        ) == content.take(n as int))),
        query.size matches Some(n) ==> part(query, content).len() <= n,
{
    if query.offset is None && query.size is None {
        assert(part(query, content) =~= content);
    }
    if let Some(o) = query.offset {
        if query.size is None && o <= content.len() {
            assert(part(query, content) =~= content.skip(o as int));
        }
    }
    if query.offset is None {
        if let Some(n) = query.size {
            if n <= content.len() {
                assert(part(query, content) =~= content.take(n as int));
            }
        }
    }
}

/// A client is told that nothing changed only where it holds a tag, and the file
/// has the length and the time of change that the tag was made of.
pub proof fn law_unchanged(h: &str, held: Stat, s: Stat)
    requires
        h@ == tag(held.len as nat, mtime(held)),
    ensures
        unchanged(Some(h), s) <==> held.len == s.len && mtime(held) == mtime(s),
        unchanged(None, s) == false,
{
    if unchanged(Some(h), s) {
        law_tag_identifies(held.len as nat, mtime(held), s.len as nat, mtime(s));
    }
}

/// A path is refused if and only if it goes up or leaves the root, and with the
/// words for that.
pub proof fn law_refusal(state: RootState, path: Seq<char>)
    ensures
        refusal(state, path) is None <==> !names(path, state.windows).contains(".."@) && under(
            resolved(state, path),
            state.remote_fs_root@,
            state.windows,
        ),
        !state.windows ==> (refusal(state, path) is Some <==> names(path, false).contains(".."@)),
{
    if !state.windows && !climbs(path, false) {
        crate::paths::law_resolved_plainly(state.remote_fs_root@, path);
    }
}

/// The name of what a path names is the last one in it, and none where it has no
/// names.
pub proof fn law_file_name(root: Seq<char>, path: Seq<char>)
    requires
        !climbs(path, false),
        names(path, false).len() > 0,
    ensures
        file_name(resolved_path(root, path, false), false) == names(path, false).last(),
{
    crate::paths::law_resolved_below(root, path, false);
    let all = names(resolved_path(root, path, false), false);
    assert(all.last() == names(path, false).last());
    if names(path, false).last() == ".."@ {
        assert(names(path, false).contains(names(path, false).last()));
    }
}

/// The tag of a version tells its length and the time of its change: versions that
/// differ in either have different tags.
pub proof fn law_tag(len: nat, at: nat, other_len: nat, other_at: nat)
    ensures
        tag(len, at) == tag(other_len, other_at) <==> len == other_len && at == other_at,
        tag(len, at).take(3) == "W/\""@,
        tag(len, at).last() == '"',
{
    reveal_strlit("W/\"");
    reveal_strlit("-");
    reveal_strlit("\"");
    let t = tag(len, at);
    let u = tag(other_len, other_at);
    let (da, db) = (decimal(len), decimal(other_len));
    let (ha, hb) = (hexadecimal(at), hexadecimal(other_at));
    crate::numeral::lemma_decimal_digits(len);
    crate::numeral::lemma_decimal_digits(other_len);
    assert(t.take(3) =~= "W/\""@);
    if t == u {
        assert(t[3 + da.len() as int] == '-');
        assert(u[3 + db.len() as int] == '-');
        if da.len() < db.len() {
            assert(crate::numeral::is_digit(db[da.len() as int], 10));
            assert(u[3 + da.len() as int] == db[da.len() as int]);
        }
        if db.len() < da.len() {
            assert(crate::numeral::is_digit(da[db.len() as int], 10));
            assert(t[3 + db.len() as int] == da[db.len() as int]);
        }
        let n = da.len() as int;
        assert(da =~= t.subrange(3, 3 + n));
        assert(db =~= u.subrange(3, 3 + n));
        assert(ha =~= t.subrange(4 + n, t.len() - 1));
        assert(hb =~= u.subrange(4 + n, u.len() - 1));
        crate::numeral::law_hexadecimal(at, other_at);
        let max = len + other_len;
        crate::numeral::law_decimal_round_trip(len, max);
        crate::numeral::law_decimal_round_trip(other_len, max);
    }
}

/// Whoever owns a file is told to be able to read and to write it, all others to
/// read it only, and a directory alone can be entered, by everybody.
pub proof fn law_permissions(f: FileStat, name: Seq<char>, path: Seq<char>, s: Stat, i: int)
    requires
        tells(f, name, path, s),
    ensures
        f.permissions@.len() == 9,
        0 <= i < 9 && i % 3 == 0 ==> f.permissions@[i] == 'r',
        0 <= i < 9 && i % 3 == 1 ==> (f.permissions@[i] == 'w' <==> i == 1),
        0 <= i < 9 && i % 3 == 2 ==> (f.permissions@[i] == 'x' <==> s.is_dir),
        0 <= i < 9 ==> f.permissions@[i] == 'r' || f.permissions@[i] == 'w' || f.permissions@[i]
            == 'x' || f.permissions@[i] == '-',
{
    reveal_strlit("rwxr-xr-x");
    reveal_strlit("rw-r--r--");
}

} // verus!
