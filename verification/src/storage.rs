//! The handlers of the storage server.
//!
//! As everywhere on the server's side, a handler is a function of the request
//! and of what the file system gave back so far. What a path names below the
//! directory that is served is up to the system: on Windows a path can name a
//! drive of its own.

use vstd::prelude::*;
use vstd::string::*;

use crate::bytes::{law_write_elsewhere, law_write_then_read, slice, spliced};
use crate::disk::{begun, left, rest, took_in, OpenFile};
use crate::native::{push_path, pushed};
use crate::numeral::{parse_u16, parsed_within};
use crate::text::{after_last, owned, split_char, texts, trim_start, trim_start_char};

verus! {

/// What is told of a file.
#[derive(Debug)]
pub struct FileInfo {
    pub name: String,
    pub path: String,
    pub file_type: String,
    pub size: u64,
    pub timestamp: u64,
    pub permissions: String,
}

/// Which part of a file a request is about.
#[derive(Debug, Clone, Copy)]
pub struct ReadParams {
    pub offset: Option<u64>,
    pub size: Option<u64>,
}

/// What a renaming request carries.
#[derive(Debug)]
pub struct RenameRequest {
    pub new_path: String,
}

/// What the file system tells of a file or a directory. The time of the last
/// change is in seconds since the epoch, where it is known.
#[derive(Debug, Clone, Copy, PartialEq, Eq, Structural)]
pub struct Metadata {
    pub is_dir: bool,
    pub size: u64,
    pub modified: Option<i64>,
}

/// An entry of a directory: its name, and its metadata where they could be read.
#[derive(Debug)]
pub struct Entry {
    pub name: String,
    pub metadata: Option<Metadata>,
}

/// Something that has to be done with the file system.
#[derive(Debug, Clone, Copy, PartialEq, Eq, Structural)]
pub enum Want {
    /// Read the directory.
    ReadDir,
    /// Read the metadata.
    Stat,
    /// Open the file for reading.
    Open,
    /// Open the file for writing, making it where it is missing, and emptying it
    /// where this says so.
    OpenWrite { truncate: bool },
    /// Go to this position of the open file.
    Seek(u64),
    /// Read so many bytes of the open file, or as many as there are.
    Read(u64),
    /// Write what the request carries into the open file.
    Receive,
    /// Make the directory, and those above it.
    MakeDirs,
    /// Make the directories above the path.
    MakeParents,
    /// Remove the directory and all that is in it.
    RemoveTree,
    /// Remove the file.
    RemoveFile,
}

/// What is answered.
#[derive(Debug)]
pub enum Answer {
    /// This status alone.
    Status(u16),
    /// This status, and the cause of the failure in its own words.
    Failed(u16),
    /// The JSON form of a listing.
    Infos(Vec<FileInfo>),
    /// The JSON form of what is told of one file.
    Info(FileInfo),
    /// Bytes.
    Bytes(Vec<u8>),
    /// What the open file holds from here on.
    Stream,
}

impl Answer {
    /// The status that goes with the answer.
    pub fn status(&self) -> (s: u16)
        ensures
            s == match *self {
                Answer::Status(code) => code,
                Answer::Failed(code) => code,
                _ => 200,
            },
            *self matches Answer::Status(code) ==> s == code,
            *self matches Answer::Failed(code) ==> s == code,
            (*self is Infos || *self is Info || *self is Bytes || *self is Stream) ==> s == 200,
    {
        match self {
            Answer::Status(code) => *code,
            Answer::Failed(code) => *code,
            _ => 200,
        }
    }
}

/// What a handler wants next.
#[derive(Debug)]
pub enum StorageNext {
    /// This has to be done at this path.
    Do { path: String, want: Want },
    /// What stands at one path has to get the other.
    Rename { from: String, to: String },
    /// This is the answer.
    Reply(Answer),
}

/// How receiving what a request carries ended.
#[derive(Debug, Clone, Copy, PartialEq, Eq, Structural)]
pub enum Upload {
    /// All of it was written.
    Written,
    /// The request broke off.
    Broken,
    /// Writing failed.
    Unwritten,
}

/// The directory that is served where none is set.
pub open spec fn root_for(setting: Option<&str>) -> Seq<char> {
    match setting {
        Some(s) => s@,
        None => "mnt/remote-fs"@,
    }
}

/// The directory that is served: the one that is set, or the usual one.
pub fn storage_root(setting: Option<&str>) -> (r: String)
    ensures
        r@ == root_for(setting),
{
    match setting {
        Some(s) => owned(s),
        None => owned("mnt/remote-fs"),
    }
}

/// The port that the server listens on: the one that is set, if that is a
/// number of a port, or the usual one.
pub fn port(setting: Option<&str>) -> (r: Option<u16>)
    ensures
        match setting {
            None => r == Some(3000u16),
            Some(s) => match parsed_within(s@, 10, u16::MAX as nat) {
                Some(n) => r matches Some(p) && p == n,
                None => r is None,
            },
        },
        setting is None ==> r == Some(3000u16),
{
    match setting {
        None => Some(3000),
        Some(s) => parse_u16(s),
    }
}

/// A request's path without leading slashes; a request without a path is about
/// the root.
pub open spec fn relative(path: Option<&str>) -> Seq<char> {
    match path {
        Some(p) => trim_start(p@, '/'),
        None => Seq::empty(),
    }
}

/// A request's path without leading slashes.
fn relative_of(path: Option<&str>) -> (r: String)
    ensures
        r@ == relative(path),
{
    match path {
        Some(p) => owned(trim_start_char(p, '/')),
        None => String::new(),
    }
}

/// The handler wants `want` done at `path`.
pub open spec fn does(next: StorageNext, path: Seq<char>, want: Want) -> bool {
    next matches StorageNext::Do { path: p, want: w } && p@ == path && w == want
}

/// The handler answers with a status alone.
pub open spec fn answers(next: StorageNext, status: u16) -> bool {
    next matches StorageNext::Reply(Answer::Status(s)) && s == status
}

/// The handler answers with a failure.
pub open spec fn fails(next: StorageNext, status: u16) -> bool {
    next matches StorageNext::Reply(Answer::Failed(s)) && s == status
}

/// The time to show: that of the last change, or `now` where that is not known;
/// the epoch for times before it.
pub open spec fn shown_time(modified: Option<i64>, now: i64) -> u64 {
    let t = match modified {
        Some(t) => t,
        None => now,
    };
    if t < 0 {
        0
    } else {
        t as u64
    }
}

/// The time to show.
fn time_of(modified: Option<i64>, now: i64) -> (t: u64)
    ensures
        t == shown_time(modified, now),
        modified matches Some(m) ==> (m >= 0 ==> t == m) && (m < 0 ==> t == 0),
        modified is None ==> (now >= 0 ==> t == now) && (now < 0 ==> t == 0),
{
    let t: i64 = match modified {
        Some(t) => t,
        None => now,
    };
    if t < 0 {
        0
    } else {
        t as u64
    }
}

/// What is told of the file `path` with the name `name`.
pub open spec fn tells(
    info: FileInfo,
    name: Seq<char>,
    path: Seq<char>,
    m: Metadata,
    now: i64,
) -> bool {
    &&& info.name@ == name
    &&& info.path@ == path
    &&& info.file_type@ == (if m.is_dir {
        "dir"@
    } else {
        "file"@
    })
    &&& info.size == m.size
    &&& info.timestamp == shown_time(m.modified, now)
    &&& info.permissions@ == "755"@
}

/// What is told of a file.
fn tell(name: String, path: String, m: Metadata, now: i64) -> (info: FileInfo)
    ensures
        tells(info, name@, path@, m, now),
        info.name@ == name@ && info.path@ == path@ && info.size == m.size,
        info.file_type@ == "dir"@ <==> m.is_dir,
        m.modified matches Some(t) ==> (t >= 0 ==> info.timestamp == t),
{
    proof {
        reveal_strlit("dir");
        reveal_strlit("file");
        assert("dir"@.len() == 3 && "file"@.len() == 4);
    }
    FileInfo {
        name,
        path,
        file_type: if m.is_dir {
            owned("dir")
        } else {
            owned("file")
        },
        size: m.size,
        timestamp: time_of(m.modified, now),
        permissions: owned("755"),
    }
}

/// The path of an entry of the directory `dir`.
pub open spec fn entry_path(dir: Seq<char>, name: Seq<char>) -> Seq<char> {
    if dir.len() == 0 {
        name
    } else {
        dir + "/"@ + name
    }
}

/// The entries whose metadata could be read.
pub open spec fn readable(entries: Seq<Entry>) -> Seq<Entry>
    decreases entries.len(),
{
    if entries.len() == 0 {
        Seq::empty()
    } else {
        let before = readable(entries.drop_last());
        if entries.last().metadata is Some {
            before.push(entries.last())
        } else {
            before
        }
    }
}

/// `infos` tell of the entries of the directory `dir` whose metadata could be
/// read, in order.
pub open spec fn lists(
    infos: Seq<FileInfo>,
    dir: Seq<char>,
    entries: Seq<Entry>,
    now: i64,
) -> bool {
    &&& infos.len() == readable(entries).len()
    &&& forall|i: int|
        0 <= i < infos.len() ==> #[trigger] tells(
            infos[i],
            readable(entries)[i].name@,
            entry_path(dir, readable(entries)[i].name@),
            readable(entries)[i].metadata->Some_0,
            now,
        )
}

/// Lists a directory. A directory that cannot be read has no entries. `entries`
/// is what reading it gave, with `None` within for a failure.
pub fn list_dir(
    root: &str,
    windows: bool,
    path: Option<&str>,
    entries: Option<Option<Vec<Entry>>>,
    now: i64,
) -> (next: StorageNext)
    ensures
        match entries {
            None => does(next, pushed(root@, relative(path), windows), Want::ReadDir),
            Some(None) => next matches StorageNext::Reply(Answer::Infos(l)) && l@.len() == 0,
            Some(Some(all)) => next matches StorageNext::Reply(Answer::Infos(l)) && lists(
                l@,
                relative(path),
                all@,
                now,
            ),
        },
        next matches StorageNext::Reply(Answer::Infos(l)) ==> (entries matches Some(Some(all)) ==> (
        l@.len() == count_readable(all@) && forall|k: int|
            0 <= k < all@.len() ==> ((#[trigger] all@[k]).metadata matches Some(m) ==> {
                let info = l@[count_readable(all@.take(k)) as int];
                &&& count_readable(all@.take(k)) < l@.len()
                &&& info.name@ == all@[k].name@
                &&& info.size == m.size
                &&& info.file_type@ == "dir"@ <==> m.is_dir
                &&& relative(path).len() == 0 ==> info.path@ == info.name@
                &&& relative(path).len() > 0 ==> info.path@ == relative(path) + "/"@ + all@[k].name@
            }))),
        next is Do <==> entries is None,
        next matches StorageNext::Do { path: p, .. } ==> p@ == pushed(root@, relative(path), windows),
{
    let dir = relative_of(path);
    let mut infos: Vec<FileInfo> = Vec::new();
    let all = match entries {
        None => {
            return StorageNext::Do {
                path: push_path(root, dir.as_str(), windows),
                want: Want::ReadDir,
            };
        },
        Some(None) => {
            return StorageNext::Reply(Answer::Infos(infos));
        },
        Some(Some(all)) => all,
    };
    assert(all@.take(0) =~= Seq::<Entry>::empty());
    for i in 0..all.len()
        invariant
            dir@ == relative(path),
            lists(infos@, dir@, all@.take(i as int), now),
    {
        let ghost before = infos@;
        assert(all@.take(i as int + 1).drop_last() =~= all@.take(i as int));
        if let Some(m) = all[i].metadata {
            let name = all[i].name.clone();
            let entry = if dir.as_str().unicode_len() == 0 {
                name.clone()
            } else {
                let mut p = dir.clone();
                p.append("/");
                p.append(name.as_str());
                p
            };
            infos.push(tell(name, entry, m, now));
            assert(forall|k: int| 0 <= k < before.len() ==> infos@[k] == before[k]);
        }
    }
    assert(all@.take(all@.len() as int) =~= all@);
    proof {
        law_listed(infos@, dir@, all@, now);
    }
    StorageNext::Reply(Answer::Infos(infos))
}

/// The handler wants this done at `path`, or answers.
pub open spec fn wants(next: StorageNext, path: Seq<char>, want: Option<Want>) -> bool {
    match want {
        Some(w) => does(next, path, w),
        None => next is Reply,
    }
}

/// What a read wants next, if it wants anything.
pub open spec fn get_want(
    params: ReadParams,
    opened: Option<bool>,
    sought: Option<bool>,
    read: bool,
) -> Option<Want> {
    match opened {
        None => Some(Want::Open),
        Some(false) => None,
        Some(true) => match params.offset {
            Some(o) => if o > 0 && sought is None {
                Some(Want::Seek(o))
            } else if o > 0 && sought == Some(false) {
                None
            } else {
                reading(params, read)
            },
            None => reading(params, read),
        },
    }
}

/// What a read wants once the open file is at the right place.
pub open spec fn reading(params: ReadParams, read: bool) -> Option<Want> {
    match params.size {
        Some(n) => if read {
            None
        } else {
            Some(Want::Read(n))
        },
        None => None,
    }
}

/// Reads a file from `offset` on: `size` bytes of it, or as many as there are;
/// all the rest where no size is named.
pub fn read_file(
    root: &str,
    windows: bool,
    path: Option<&str>,
    params: ReadParams,
    opened: Option<bool>,
    sought: Option<bool>,
    read: Option<Option<Vec<u8>>>,
) -> (next: StorageNext)
    ensures
        ({
            let full = pushed(root@, relative(path), windows);
            let offset = match params.offset {
                Some(o) => o,
                None => 0,
            };
            match opened {
                None => does(next, full, Want::Open),
                Some(false) => answers(next, 404),
                Some(true) => if offset > 0 && sought is None {
                    does(next, full, Want::Seek(offset))
                } else if offset > 0 && sought == Some(false) {
                    answers(next, 400)
                } else {
                    match params.size {
                        None => next matches StorageNext::Reply(Answer::Stream),
                        Some(size) => match read {
                            None => does(next, full, Want::Read(size)),
                            Some(None) => answers(next, 500),
                            Some(Some(bytes)) => next == StorageNext::Reply(
                                Answer::Bytes(bytes),
                            ),
                        },
                    }
                },
            }
        }),
        wants(
            next,
            pushed(root@, relative(path), windows),
            get_want(params, opened, sought, read is Some),
        ),
        next matches StorageNext::Reply(Answer::Bytes(b)) ==> (read matches Some(Some(bytes)) && b@.len()
            == bytes@.len() && forall|i: int| 0 <= i < bytes@.len() ==> #[trigger] b@[i] == bytes@[i]),
        next matches StorageNext::Do { want: Want::Seek(at), .. } ==> params.offset == Some(at),
        next matches StorageNext::Do { want: Want::Read(n), .. } ==> params.size == Some(n),
        (next matches StorageNext::Reply(Answer::Stream)) ==> params.size is None && opened == Some(true),
        (next matches StorageNext::Reply(Answer::Status(s)) && s == 404) <==> opened == Some(false),
        next matches StorageNext::Reply(Answer::Status(s)) ==> s >= 400,
        next matches StorageNext::Do { path: p, .. } ==> p@ == pushed(root@, relative(path), windows),
{
    let rel = relative_of(path);
    let full = push_path(root, rel.as_str(), windows);
    match opened {
        None => {
            return StorageNext::Do { path: full, want: Want::Open };
        },
        Some(false) => {
            return StorageNext::Reply(Answer::Status(404));
        },
        Some(true) => {},
    }
    let offset: u64 = match params.offset {
        Some(o) => o,
        None => 0,
    };
    if offset > 0 {
        match sought {
            None => {
                return StorageNext::Do { path: full, want: Want::Seek(offset) };
            },
            Some(false) => {
                return StorageNext::Reply(Answer::Status(400));
            },
            Some(true) => {},
        }
    }
    match params.size {
        None => StorageNext::Reply(Answer::Stream),
        Some(size) => match read {
            None => StorageNext::Do { path: full, want: Want::Read(size) },
            Some(None) => StorageNext::Reply(Answer::Status(500)),
            Some(Some(bytes)) => StorageNext::Reply(Answer::Bytes(bytes)),
        },
    }
}

/// Tells of a file. `stat` is what reading its metadata gave, with `None` within
/// for a failure.
pub fn get_stat(
    root: &str,
    windows: bool,
    path: Option<&str>,
    stat: Option<Option<Metadata>>,
    now: i64,
) -> (next: StorageNext)
    ensures
        match stat {
            None => does(next, pushed(root@, relative(path), windows), Want::Stat),
            Some(None) => answers(next, 404),
            Some(Some(m)) => next matches StorageNext::Reply(Answer::Info(info)) && tells(
                info,
                after_last(relative(path), '/'),
                relative(path),
                m,
                now,
            ),
        },
        next matches StorageNext::Reply(Answer::Info(info)) ==> (stat matches Some(Some(m)) && info.size
            == m.size && (info.file_type@ == "dir"@ <==> m.is_dir) && info.path@ == relative(path)),
        (next matches StorageNext::Reply(Answer::Status(s)) && s == 404) <==> stat matches Some(None),
        next matches StorageNext::Do { path: p, .. } ==> p@ == pushed(root@, relative(path), windows),
{
    let rel = relative_of(path);
    match stat {
        None => StorageNext::Do { path: push_path(root, rel.as_str(), windows), want: Want::Stat },
        Some(None) => StorageNext::Reply(Answer::Status(404)),
        Some(Some(m)) => {
            let pieces = split_char(rel.as_str(), '/');
            proof {
                crate::paths::lemma_split_some(rel@, '/');
            }
            assert(texts(pieces@).len() == pieces@.len());
            let last: usize = pieces.len() - 1;
            assert(texts(pieces@).last() == pieces@[last as int]@);
            let name = pieces[last].clone();
            proof {
                reveal_strlit("dir");
                reveal_strlit("file");
                assert("dir"@.len() == 3 && "file"@.len() == 4);
            }
            StorageNext::Reply(Answer::Info(tell(name, rel, m, now)))
        },
    }
}

/// What an upload wants next, if it wants anything.
pub open spec fn put_want(
    params: ReadParams,
    opened: Option<bool>,
    sought: Option<bool>,
    received: bool,
) -> Option<Want> {
    match opened {
        None => Some(Want::OpenWrite { truncate: params.offset is None }),
        Some(false) => None,
        Some(true) => if params.offset is Some && sought is None {
            Some(Want::Seek(params.offset->Some_0))
        } else if params.offset is Some && sought == Some(false) {
            None
        } else if received {
            None
        } else {
            Some(Want::Receive)
        },
    }
}

/// Writes what the request carries into a file: over its contents from `offset`
/// on, or in place of them where no offset is named.
pub fn write_file(
    root: &str,
    windows: bool,
    path: Option<&str>,
    params: ReadParams,
    opened: Option<bool>,
    sought: Option<bool>,
    received: Option<Upload>,
) -> (next: StorageNext)
    ensures
        ({
            let full = pushed(root@, relative(path), windows);
            match opened {
                None => does(
                    next,
                    full,
                    Want::OpenWrite { truncate: params.offset is None },
                ),
                Some(false) => fails(next, 500),
                Some(true) => if params.offset is Some && sought is None {
                    does(next, full, Want::Seek(params.offset->Some_0))
                } else if params.offset is Some && sought == Some(false) {
                    answers(next, 400)
                } else {
                    match received {
                        None => does(next, full, Want::Receive),
                        Some(Upload::Broken) => fails(next, 400),
                        Some(Upload::Unwritten) => fails(next, 500),
                        Some(Upload::Written) => answers(next, 200),
                    }
                },
            }
        }),
        wants(
            next,
            pushed(root@, relative(path), windows),
            put_want(params, opened, sought, received is Some),
        ),
        (next matches StorageNext::Reply(Answer::Status(s)) && 200 <= s <= 299) <==> (opened == Some(true) && (
        params.offset is None || sought == Some(true)) && received == Some(Upload::Written)),
        next matches StorageNext::Do { want: Want::OpenWrite { truncate }, .. } ==> (truncate
            <==> params.offset is None),
        next matches StorageNext::Do { want: Want::Seek(at), .. } ==> params.offset == Some(at),
        next matches StorageNext::Do { path: p, .. } ==> p@ == pushed(root@, relative(path), windows),
        next matches StorageNext::Reply(Answer::Status(s)) ==> s == 200 || s == 400,
        (next matches StorageNext::Reply(Answer::Failed(s)) && s == 500) <==> opened == Some(false) || (
        opened == Some(true) && (params.offset is None || sought == Some(true)) && received == Some(
            Upload::Unwritten,
        )),
{
    let rel = relative_of(path);
    let full = push_path(root, rel.as_str(), windows);
    match opened {
        None => {
            return StorageNext::Do {
                path: full,
                want: Want::OpenWrite { truncate: params.offset.is_none() },
            };
        },
        Some(false) => {
            return StorageNext::Reply(Answer::Failed(500));
        },
        Some(true) => {},
    }
    if let Some(offset) = params.offset {
        match sought {
            None => {
                return StorageNext::Do { path: full, want: Want::Seek(offset) };
            },
            Some(false) => {
                return StorageNext::Reply(Answer::Status(400));
            },
            Some(true) => {},
        }
    }
    match received {
        None => StorageNext::Do { path: full, want: Want::Receive },
        Some(Upload::Broken) => StorageNext::Reply(Answer::Failed(400)),
        Some(Upload::Unwritten) => StorageNext::Reply(Answer::Failed(500)),
        Some(Upload::Written) => StorageNext::Reply(Answer::Status(200)),
    }
}

/// The request names no path.
pub open spec fn unnamed(path: Option<&str>) -> bool {
    match path {
        Some(p) => p@.len() == 0,
        None => true,
    }
}

/// Whether the request names no path.
fn is_unnamed(path: Option<&str>) -> (r: bool)
    ensures
        r == unnamed(path),
{
    match path {
        Some(p) => p.unicode_len() == 0,
        None => true,
    }
}

/// Makes a directory, and those above it.
pub fn create_dir(
    root: &str,
    windows: bool,
    path: Option<&str>,
    made: Option<bool>,
) -> (next: StorageNext)
    ensures
        if unnamed(path) {
            answers(next, 400)
        } else {
            match made {
                None => does(next, pushed(root@, relative(path), windows), Want::MakeDirs),
                Some(true) => answers(next, 201),
                Some(false) => fails(next, 500),
            }
        },
        (next matches StorageNext::Reply(Answer::Status(s)) && 200 <= s <= 299) <==> !unnamed(path) && made == Some(
            true,
        ),
        next is Do <==> !unnamed(path) && made is None,
        next matches StorageNext::Do { path: p, .. } ==> p@ == pushed(root@, relative(path), windows),
        next matches StorageNext::Reply(Answer::Status(s)) ==> s == 201 || (s == 400 && unnamed(path)),
        path is None ==> (next matches StorageNext::Reply(Answer::Status(s)) && s == 400),
        made == Some(false) && !unnamed(path) ==> (next matches StorageNext::Reply(Answer::Failed(s)) && s
            == 500),
{
    if is_unnamed(path) {
        return StorageNext::Reply(Answer::Status(400));
    }
    let rel = relative_of(path);
    match made {
        None => StorageNext::Do { path: push_path(root, rel.as_str(), windows), want: Want::MakeDirs },
        Some(true) => StorageNext::Reply(Answer::Status(201)),
        Some(false) => StorageNext::Reply(Answer::Failed(500)),
    }
}

/// Removes a file, or a directory with all that is in it. `stat` says whether it
/// is a directory, with `None` within where nothing stands at the path.
pub fn delete_file(
    root: &str,
    windows: bool,
    path: Option<&str>,
    stat: Option<Option<bool>>,
    removed: Option<bool>,
) -> (next: StorageNext)
    ensures
        ({
            let full = pushed(root@, relative(path), windows);
            if unnamed(path) {
                answers(next, 400)
            } else {
                match stat {
                    None => does(next, full, Want::Stat),
                    Some(None) => answers(next, 404),
                    Some(Some(is_dir)) => match removed {
                        None => does(
                            next,
                            full,
                            if is_dir {
                                Want::RemoveTree
                            } else {
                                Want::RemoveFile
                            },
                        ),
                        Some(true) => answers(next, 204),
                        Some(false) => fails(next, 500),
                    },
                }
            }
        }),
        (next matches StorageNext::Reply(Answer::Status(s)) && 200 <= s <= 299) <==> !unnamed(path) && (
        stat matches Some(Some(_))) && removed == Some(true),
        (next matches StorageNext::Do { want: Want::RemoveTree, .. }) ==> stat == Some(Some(true)),
        (next matches StorageNext::Do { want: Want::RemoveFile, .. }) ==> stat == Some(Some(false)),
        (next matches StorageNext::Reply(Answer::Status(s)) && s == 404) <==> !unnamed(path) && (
        stat matches Some(None)),
        next matches StorageNext::Do { path: p, .. } ==> p@ == pushed(root@, relative(path), windows),
        next matches StorageNext::Reply(Answer::Status(s)) ==> s == 204 || s == 400 || s == 404,
        path is None ==> (next matches StorageNext::Reply(Answer::Status(s)) && s == 400),
        removed == Some(false) && !unnamed(path) && (stat matches Some(Some(_))) ==> (next
            matches StorageNext::Reply(Answer::Failed(s)) && s == 500),
{
    if is_unnamed(path) {
        return StorageNext::Reply(Answer::Status(400));
    }
    let rel = relative_of(path);
    let full = push_path(root, rel.as_str(), windows);
    match stat {
        None => StorageNext::Do { path: full, want: Want::Stat },
        Some(None) => StorageNext::Reply(Answer::Status(404)),
        Some(Some(is_dir)) => match removed {
            None => if is_dir {
                StorageNext::Do { path: full, want: Want::RemoveTree }
            } else {
                StorageNext::Do { path: full, want: Want::RemoveFile }
            },
            Some(true) => StorageNext::Reply(Answer::Status(204)),
            Some(false) => StorageNext::Reply(Answer::Failed(500)),
        },
    }
}

/// Gives what stands at one path another. The directories above the latter are
/// made first; whether that went well (`prepared`) does not matter.
pub fn rename_file(
    root: &str,
    windows: bool,
    old_path: &str,
    request: &RenameRequest,
    prepared: Option<bool>,
    renamed: Option<bool>,
) -> (next: StorageNext)
    ensures
        ({
            let from = pushed(root@, trim_start(old_path@, '/'), windows);
            let to = pushed(root@, trim_start(request.new_path@, '/'), windows);
            match prepared {
                None => does(next, to, Want::MakeParents),
                Some(_) => match renamed {
                    None => next matches StorageNext::Rename { from: f, to: t } && f@ == from
                        && t@ == to,
                    Some(true) => answers(next, 200),
                    Some(false) => fails(next, 500),
                },
            }
        }),
        (next matches StorageNext::Reply(Answer::Status(s)) && 200 <= s <= 299) <==> prepared is Some && renamed
            == Some(true),
        next matches StorageNext::Rename { from, to } ==> from@ == pushed(
            root@,
            trim_start(old_path@, '/'),
            windows,
        ) && to@ == pushed(root@, trim_start(request.new_path@, '/'), windows),
        next matches StorageNext::Do { path: p, want } ==> want == Want::MakeParents && p@ == pushed(
            root@,
            trim_start(request.new_path@, '/'),
            windows,
        ),
        next matches StorageNext::Reply(Answer::Status(s)) ==> s == 200,
        next matches StorageNext::Reply(Answer::Failed(s)) ==> s == 500 && renamed == Some(false),
{
    let from = push_path(root, trim_start_char(old_path, '/'), windows);
    let to = push_path(root, trim_start_char(request.new_path.as_str(), '/'), windows);
    match prepared {
        None => StorageNext::Do { path: to, want: Want::MakeParents },
        Some(_) => match renamed {
            None => StorageNext::Rename { from, to },
            Some(true) => StorageNext::Reply(Answer::Status(200)),
            Some(false) => StorageNext::Reply(Answer::Failed(500)),
        },
    }
}

/// The answer that all is well.
pub fn health() -> (a: Answer)
    ensures
        a matches Answer::Status(s) && s == 200,
{
    Answer::Status(200)
}

/// The open file once all that an upload of `data` still wants was done and went
/// well.
pub open spec fn put_from(
    params: ReadParams,
    data: Seq<u8>,
    f: OpenFile,
    opened: Option<bool>,
    sought: Option<bool>,
    received: bool,
) -> OpenFile
    decreases left(opened is None) + left(sought is None) + left(!received),
{
    match put_want(params, opened, sought, received) {
        Some(Want::OpenWrite { truncate }) => put_from(
            params,
            data,
            begun(
                if truncate {
                    Seq::empty()
                } else {
                    f.content
                },
            ),
            Some(true),
            sought,
            received,
        ),
        Some(Want::Seek(o)) => put_from(
            params,
            data,
            OpenFile { at: o as nat, ..f },
            opened,
            Some(true),
            received,
        ),
        Some(Want::Receive) => put_from(params, data, took_in(f, data), opened, sought, true),
        _ => f,
    }
}

/// The bytes that a read answers once all that it still wants was done and went
/// well.
pub open spec fn get_from(
    params: ReadParams,
    f: OpenFile,
    opened: Option<bool>,
    sought: Option<bool>,
) -> Seq<u8>
    decreases left(opened is None) + left(sought is None),
{
    match get_want(params, opened, sought, false) {
        Some(Want::Open) => get_from(params, begun(f.content), Some(true), sought),
        Some(Want::Seek(o)) => get_from(
            params,
            OpenFile { at: o as nat, ..f },
            opened,
            Some(true),
        ),
        Some(Want::Read(n)) => rest(f, n as nat),
        _ => rest(f, f.content.len()),
    }
}

/// What an upload of `data` makes of a file.
pub open spec fn uploaded(offset: Option<u64>, content: Seq<u8>, data: Seq<u8>) -> Seq<u8> {
    match offset {
        None => data,
        Some(o) => if data.len() == 0 {
            content
        } else {
            spliced(content, o as int, data)
        },
    }
}

/// What a read gives of a file.
pub open spec fn downloaded(params: ReadParams, content: Seq<u8>) -> Seq<u8> {
    slice(
        content,
        match params.offset {
            Some(o) => o as int,
            None => 0,
        },
        match params.size {
            Some(n) => n as int,
            None => content.len() as int,
        },
    )
}

/// An upload that goes well puts what it carries at its place in the file, or in
/// place of the file where no offset is named, and changes nothing else.
pub proof fn law_upload_effect(params: ReadParams, content: Seq<u8>, data: Seq<u8>)
    ensures
        put_from(params, data, begun(content), None, None, false).content == uploaded(
            params.offset,
            content,
            data,
        ),
{
    reveal_with_fuel(put_from, 5);
    if params.offset is None && data.len() > 0 {
        assert(spliced(Seq::empty(), 0, data) =~= data);
    }
    if params.offset is None && data.len() == 0 {
        assert(data =~= Seq::<u8>::empty());
    }
}

/// A read that goes well answers the part of the file that was asked for, as far
/// as there is any.
pub proof fn law_download_content(params: ReadParams, content: Seq<u8>)
    ensures
        get_from(params, begun(content), None, None) == downloaded(params, content),
{
    reveal_with_fuel(get_from, 4);
    if params.offset is None || params.offset == Some(0u64) {
        assert(rest(begun(content), content.len()) =~= downloaded(
            ReadParams { offset: params.offset, size: None },
            content,
        ));
    }
}

/// What was uploaded is what is read back from the same place.
pub proof fn law_upload_then_download(offset: Option<u64>, content: Seq<u8>, data: Seq<u8>)
    requires
        data.len() <= u64::MAX,
    ensures
        downloaded(
            ReadParams { offset, size: Some(data.len() as u64) },
            uploaded(offset, content, data),
        ) == data,
        offset is None ==> downloaded(
            ReadParams { offset: None, size: None },
            uploaded(offset, content, data),
        ) == data,
{
    match offset {
        None => {
            assert(slice(data, 0, data.len() as int) =~= data);
        },
        Some(o) => {
            if data.len() == 0 {
                assert(slice(content, o as int, 0) =~= data);
            } else {
                law_write_then_read(content, o as nat, data);
            }
        },
    }
}

/// An upload to a place in a file leaves what is read from elsewhere as it was.
pub proof fn law_upload_elsewhere(
    offset: u64,
    content: Seq<u8>,
    data: Seq<u8>,
    from: u64,
    n: u64,
)
    requires
        from + n <= content.len(),
        from + n <= offset || offset + data.len() <= from,
    ensures
        downloaded(
            ReadParams { offset: Some(from), size: Some(n) },
            uploaded(Some(offset), content, data),
        ) == downloaded(ReadParams { offset: Some(from), size: Some(n) }, content),
{
    law_write_elsewhere(content, offset as nat, data, from as nat, n as nat);
}

/// How many of the entries have metadata that could be read.
pub open spec fn count_readable(entries: Seq<Entry>) -> nat
    decreases entries.len(),
{
    if entries.len() == 0 {
        0
    } else {
        count_readable(entries.drop_last()) + (if entries.last().metadata is Some {
            1nat
        } else {
            0nat
        })
    }
}

/// The readable entries are just those with metadata, in order.
proof fn lemma_readable(entries: Seq<Entry>)
    ensures
        readable(entries).len() == count_readable(entries),
        forall|k: int|
            0 <= k < entries.len() && (#[trigger] entries[k]).metadata is Some ==> count_readable(
                entries.take(k),
            ) < readable(entries).len() && readable(entries)[count_readable(
                entries.take(k),
            ) as int] == entries[k],
    decreases entries.len(),
{
    if entries.len() > 0 {
        let head = entries.drop_last();
        lemma_readable(head);
        assert forall|k: int|
            0 <= k < entries.len() && (
            #[trigger] entries[k]).metadata is Some implies count_readable(entries.take(k))
            < readable(entries).len() && readable(entries)[count_readable(
            entries.take(k),
        ) as int] == entries[k] by {
            if k < head.len() {
                assert(head[k] == entries[k]);
                assert(head.take(k) =~= entries.take(k));
            } else {
                assert(entries.take(k) =~= head);
            }
        }
    }
}

/// Every entry of a listing says of itself what the file system said: its name,
/// its size, and whether it is a directory; its path leads from the directory to
/// it. There are as many as could be read, each behind those that came before it.
pub proof fn law_listed(infos: Seq<FileInfo>, dir: Seq<char>, entries: Seq<Entry>, now: i64)
    requires
        lists(infos, dir, entries, now),
    ensures
        infos.len() == count_readable(entries),
        forall|k: int|
            0 <= k < entries.len() ==> ((#[trigger] entries[k]).metadata matches Some(m) ==> {
                let info = infos[count_readable(entries.take(k)) as int];
                &&& count_readable(entries.take(k)) < infos.len()
                &&& info.name@ == entries[k].name@
                &&& info.size == m.size
                &&& info.file_type@ == "dir"@ <==> m.is_dir
                &&& m.modified matches Some(t) ==> (t >= 0 ==> info.timestamp == t)
                &&& dir.len() == 0 ==> info.path@ == info.name@
                &&& dir.len() > 0 ==> info.path@ == dir + "/"@ + entries[k].name@
            }),
{
    reveal_strlit("dir");
    reveal_strlit("file");
    assert("dir"@.len() == 3 && "file"@.len() == 4);
    lemma_readable(entries);
    assert forall|k: int| 0 <= k < entries.len() implies ((
    #[trigger] entries[k]).metadata matches Some(m) ==> {
        let info = infos[count_readable(entries.take(k)) as int];
        &&& count_readable(entries.take(k)) < infos.len()
        &&& info.name@ == entries[k].name@
        &&& info.size == m.size
        &&& info.file_type@ == "dir"@ <==> m.is_dir
        &&& m.modified matches Some(t) ==> (t >= 0 ==> info.timestamp == t)
        &&& dir.len() == 0 ==> info.path@ == info.name@
        &&& dir.len() > 0 ==> info.path@ == dir + "/"@ + entries[k].name@
    }) by {
        if entries[k].metadata is Some {
            let j = count_readable(entries.take(k)) as int;
            assert(readable(entries)[j] == entries[k]);
            assert(tells(
                infos[j],
                readable(entries)[j].name@,
                entry_path(dir, readable(entries)[j].name@),
                readable(entries)[j].metadata->Some_0,
                now,
            ));
        }
    }
}

/// What is told of a file is what the file system said of it: directories and
/// files are told apart, and a time behind the epoch is told as it is.
pub proof fn law_told(
    info: FileInfo,
    name: Seq<char>,
    path: Seq<char>,
    m: Metadata,
    now: i64,
)
    requires
        tells(info, name, path, m, now),
    ensures
        info.name@ == name,
        info.path@ == path,
        info.size == m.size,
        info.file_type@ == "dir"@ <==> m.is_dir,
        info.file_type@ == "file"@ <==> !m.is_dir,
        m.modified matches Some(t) ==> info.timestamp == (if t < 0 {
            0
        } else {
            t as int
        }),
        m.modified is None && now >= 0 ==> info.timestamp == now,
{
    reveal_strlit("dir");
    reveal_strlit("file");
    assert("dir"@.len() == 3 && "file"@.len() == 4);
}

/// An upload without an offset makes a file of what it carries. One with an offset
/// puts each byte at its place, keeps every byte of the file elsewhere, and fills
/// a gap with zeros.
pub proof fn law_uploaded(offset: u64, content: Seq<u8>, data: Seq<u8>)
    ensures
        uploaded(None, content, data) == data,
        data.len() == 0 ==> uploaded(Some(offset), content, data) == content,
        data.len() > 0 ==> {
            let after = uploaded(Some(offset), content, data);
            &&& after.len() == (if content.len() > offset + data.len() {
                content.len() as int
            } else {
                offset + data.len()
            })
            &&& forall|i: int| 0 <= i < data.len() ==> after[offset + i] == #[trigger] data[i]
            &&& forall|i: int|
                0 <= i < content.len() && !(offset <= i < offset + data.len()) ==> after[i]
                    == #[trigger] content[i]
            &&& forall|i: int| content.len() <= i < offset ==> #[trigger] after[i] == 0
        },
{
}

/// A read gives the bytes of a file that stand there, one for one: all of them
/// where neither an offset nor a size is named, and otherwise as many as were
/// asked for, unless the file ends before.
pub proof fn law_downloaded(params: ReadParams, content: Seq<u8>)
    ensures
        params.offset is None && params.size is None ==> downloaded(params, content) == content,
        params.size is None ==> (params.offset matches Some(o) ==> (o <= content.len()
            ==> downloaded(params, content) == content.skip(o as int))),
        params.size matches Some(n) ==> downloaded(params, content).len() <= n,
        params.offset matches Some(o) ==> forall|i: int|
            0 <= i < downloaded(params, content).len() ==> #[trigger] downloaded(params, content)[i]
                == content[o + i],
        params.offset matches Some(o) ==> (params.size matches Some(n) ==> (o + n <= content.len()
            ==> downloaded(params, content).len() == n)),
        params.offset is None ==> (params.size matches Some(n) ==> (n <= content.len()
            ==> downloaded(params, content) == content.take(n as int))),
{
    if params.offset is None && params.size is None {
        assert(downloaded(params, content) =~= content);
    }
    if params.size is None {
        if let Some(o) = params.offset {
            if o <= content.len() {
                assert(downloaded(params, content) =~= content.skip(o as int));
            }
        }
    }
    if params.offset is None {
        if let Some(n) = params.size {
            if n <= content.len() {
                assert(downloaded(params, content) =~= content.take(n as int));
            }
        }
    }
}

/// A request is about the same path with and without slashes before it, and a
/// request without a path about the root.
pub proof fn law_relative(p: &str)
    ensures
        relative(None).len() == 0,
        relative(Some(p)).len() > 0 ==> relative(Some(p))[0] != '/',
        relative(Some(p)).len() <= p@.len(),
        p@.skip(p@.len() - relative(Some(p)).len()) == relative(Some(p)),
        forall|i: int| 0 <= i < p@.len() - relative(Some(p)).len() ==> #[trigger] p@[i] == '/',
{
    crate::text::law_trim_start(p@, '/');
}

/// The permissions that are told of every file are three octal digits: the owner
/// may do everything, and others may read and enter.
pub proof fn law_permissions(
    info: FileInfo,
    name: Seq<char>,
    path: Seq<char>,
    m: Metadata,
    now: i64,
    i: int,
)
    requires
        tells(info, name, path, m, now),
    ensures
        info.permissions@.len() == 3,
        info.permissions@[0] == '7',
        i == 1 || i == 2 ==> info.permissions@[i] == '5',
{
    reveal_strlit("755");
}

} // verus!
