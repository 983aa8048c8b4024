//! The file system as a drive on Windows: what each of the drive's operations
//! asks of the server, and what it answers.

use vstd::prelude::*;
use vstd::string::*;

use crate::api::{ApiError, FileEntry};
use crate::bytes::{copy_of, law_adjacent_writes, slice, slice_of, spliced};
use crate::cache::{
    cache_size_for, chunk_size_for, listed, listings_without, live_files, live_listings, opt_text,
    CacheManager, ChunkView, ListingView, METADATA_CACHE_TTL,
};
use crate::errno::Errno;
use crate::paths::{
    normalize_remote_path, parent_and_name, remote_path, split_parent_and_name,
};
use crate::table::PathTable;
use crate::text::{owned, same_text, trim_start, trim_start_char};
use crate::wide::{wide, wide_units};

verus! {

/// A status of the Windows kernel.
pub type NtStatus = i32;

pub const STATUS_SUCCESS: NtStatus = 0;

/// 0xC0000034
pub const STATUS_OBJECT_NAME_NOT_FOUND: NtStatus = -1_073_741_772;

/// 0xC0000185
pub const STATUS_IO_DEVICE_ERROR: NtStatus = -1_073_741_435;

/// 0xC000009D
pub const STATUS_DEVICE_NOT_CONNECTED: NtStatus = -1_073_741_667;

/// 0xC0000022
pub const STATUS_ACCESS_DENIED: NtStatus = -1_073_741_790;

/// 0xC0000103
pub const STATUS_NOT_A_DIRECTORY: NtStatus = -1_073_741_565;

/// 0xC00000BA
pub const STATUS_FILE_IS_A_DIRECTORY: NtStatus = -1_073_741_638;

pub const FILE_NON_DIRECTORY_FILE: u32 = 0x40;

pub const FILE_DIRECTORY_FILE: u32 = 0x1;

pub const FILE_SUPERSEDE: u32 = 0;

pub const FILE_CREATE: u32 = 2;

pub const FILE_OPEN_IF: u32 = 3;

pub const FILE_OVERWRITE_IF: u32 = 5;

pub const FILE_ATTRIBUTE_NORMAL: u32 = 0x80;

pub const FILE_ATTRIBUTE_DIRECTORY: u32 = 0x10;

/// How many bytes of adjacent writes are collected before they are sent.
pub const MAX_BUFFER_SIZE: usize = 4_194_304;

/// How many writes of one file may be under way, and how many stay under way
/// when there are too many.
pub const MAX_CONCURRENT: usize = 8;

pub const KEPT_CONCURRENT: usize = 4;

/// The status for a condition, none being success.
pub open spec fn nt_status(err: Option<Errno>) -> NtStatus {
    match err {
        None => STATUS_SUCCESS,
        Some(Errno::NoEnt) => STATUS_OBJECT_NAME_NOT_FOUND,
        Some(Errno::NotConn) => STATUS_DEVICE_NOT_CONNECTED,
        Some(Errno::Io) => STATUS_IO_DEVICE_ERROR,
        Some(_) => STATUS_ACCESS_DENIED,
    }
}

/// The status for a condition, none being success.
pub fn posix_to_ntstatus(err: Option<Errno>) -> (status: NtStatus)
    ensures
        status == nt_status(err),
        err is None <==> status == 0,
        err == Some(Errno::NoEnt) <==> status == -1_073_741_772,
        err == Some(Errno::NotConn) <==> status == -1_073_741_667,
        err == Some(Errno::Io) <==> status == -1_073_741_435,
        err is Some && err != Some(Errno::NoEnt) && err != Some(Errno::NotConn) && err != Some(Errno::Io)
            ==> status == -1_073_741_790,
{
    match err {
        None => STATUS_SUCCESS,
        Some(Errno::NoEnt) => STATUS_OBJECT_NAME_NOT_FOUND,
        Some(Errno::NotConn) => STATUS_DEVICE_NOT_CONNECTED,
        Some(Errno::Io) => STATUS_IO_DEVICE_ERROR,
        Some(_) => STATUS_ACCESS_DENIED,
    }
}

/// Adjacent writes of one file that were not sent yet.
#[derive(Debug)]
pub struct WriteBuffer {
    pub offset: u64,
    pub data: Vec<u8>,
}

/// The model of collected writes.
#[verifier::ext_equal]
pub struct BufferView {
    pub offset: nat,
    pub data: Seq<u8>,
}

impl View for WriteBuffer {
    type V = BufferView;

    open spec fn view(&self) -> BufferView {
        BufferView { offset: self.offset as nat, data: self.data@ }
    }
}

/// The writes of one file: those collected, and the numbers of those under way.
#[derive(Debug)]
pub struct FileWriteState {
    pub buffer: Option<WriteBuffer>,
    pub handles: Vec<u64>,
}

/// The model of the writes of one file.
#[verifier::ext_equal]
pub struct WritesView {
    pub buffer: Option<BufferView>,
    pub handles: Seq<u64>,
}

impl View for FileWriteState {
    type V = WritesView;

    open spec fn view(&self) -> WritesView {
        WritesView {
            buffer: match self.buffer {
                Some(b) => Some(b@),
                None => None,
            },
            handles: self.handles@,
        }
    }
}

/// Nothing is collected and nothing under way.
pub open spec fn no_writes() -> WritesView {
    WritesView { buffer: None, handles: Seq::empty() }
}

/// What stays collected lies where a write can begin, and is less than what is
/// sent at once.
pub open spec fn is_held(held: Option<BufferView>) -> bool {
    held matches Some(b) ==> b.offset <= i64::MAX && b.data.len() < MAX_BUFFER_SIZE
}

/// What is sent at once, and what stays collected, when `data` is to be written
/// at `offset`: adjacent writes are collected, others make what was collected go.
pub open spec fn collected(
    held: Option<BufferView>,
    offset: nat,
    data: Seq<u8>,
) -> (Seq<BufferView>, BufferView) {
    match held {
        Some(b) => if offset == b.offset + b.data.len() {
            (Seq::empty(), BufferView { offset: b.offset, data: b.data + data })
        } else {
            (seq![b], BufferView { offset, data })
        },
        None => (Seq::empty(), BufferView { offset, data }),
    }
}

/// What is sent when `data` is to be written at `offset`: also what was
/// collected, if that is enough.
pub open spec fn sent(held: Option<BufferView>, offset: nat, data: Seq<u8>) -> Seq<BufferView> {
    let (gone, kept) = collected(held, offset, data);
    if kept.data.len() >= MAX_BUFFER_SIZE {
        gone.push(kept)
    } else {
        gone
    }
}

/// What stays collected when `data` is to be written at `offset`.
pub open spec fn left(held: Option<BufferView>, offset: nat, data: Seq<u8>) -> Option<BufferView> {
    let (_, kept) = collected(held, offset, data);
    if kept.data.len() >= MAX_BUFFER_SIZE {
        None
    } else {
        Some(kept)
    }
}

/// The writes to be waited for, given all that are under way: the oldest ones,
/// if there are too many.
pub open spec fn waited(handles: Seq<u64>) -> Seq<u64> {
    if handles.len() > MAX_CONCURRENT {
        handles.take(handles.len() - KEPT_CONCURRENT)
    } else {
        Seq::empty()
    }
}

/// The writes that stay under way.
pub open spec fn unwaited(handles: Seq<u64>) -> Seq<u64> {
    if handles.len() > MAX_CONCURRENT {
        handles.skip(handles.len() - KEPT_CONCURRENT)
    } else {
        handles
    }
}

/// The numbers from `first` on, `n` of them.
pub open spec fn numbers_from(first: nat, n: nat) -> Seq<u64> {
    Seq::new(n, |i: int| (first + i) as u64)
}

/// The writes of one file over a series of calls: what was sent, what stays
/// collected, what is under way, what was waited for, and the next number.
#[verifier::ext_equal]
pub struct SeriesView {
    pub sent: Seq<BufferView>,
    pub buffer: Option<BufferView>,
    pub handles: Seq<u64>,
    pub waited: Seq<u64>,
    pub next: nat,
}

/// Nothing was written since the last flush.
pub open spec fn unwritten(first: nat) -> SeriesView {
    SeriesView {
        sent: Seq::empty(),
        buffer: None,
        handles: Seq::empty(),
        waited: Seq::empty(),
        next: first,
    }
}

/// A series that goes on from what is collected and under way.
pub open spec fn going_on(w: WritesView, next: nat) -> SeriesView {
    SeriesView {
        sent: Seq::empty(),
        buffer: w.buffer,
        handles: w.handles,
        waited: Seq::empty(),
        next,
    }
}

/// The series once one more write was taken in.
pub open spec fn with_write(s: SeriesView, w: BufferView) -> SeriesView {
    let gone = sent(s.buffer, w.offset, w.data);
    let under_way = s.handles + numbers_from(s.next, gone.len());
    SeriesView {
        sent: s.sent + gone,
        buffer: left(s.buffer, w.offset, w.data),
        handles: unwaited(under_way),
        waited: s.waited + waited(under_way),
        next: s.next + gone.len(),
    }
}

/// The series once all these writes were taken in, one after another.
pub open spec fn with_writes(s: SeriesView, writes: Seq<BufferView>) -> SeriesView
    decreases writes.len(),
{
    if writes.len() == 0 {
        s
    } else {
        with_write(with_writes(s, writes.drop_last()), writes.last())
    }
}

/// What is collected, as a list.
pub open spec fn held_of(buffer: Option<BufferView>) -> Seq<BufferView> {
    match buffer {
        Some(b) => seq![b],
        None => Seq::empty(),
    }
}

/// The series once it was flushed.
pub open spec fn flushed(s: SeriesView) -> SeriesView {
    let gone = held_of(s.buffer);
    SeriesView {
        sent: s.sent + gone,
        buffer: None,
        handles: Seq::empty(),
        waited: s.waited + (s.handles + numbers_from(s.next, gone.len())),
        next: s.next + gone.len(),
    }
}

/// The writes of all files: what is collected and under way of each, and the next
/// number.
#[verifier::ext_equal]
pub struct PendingView {
    pub writes: Map<Seq<char>, WritesView>,
    pub next: nat,
}

/// What is collected and under way of the file at `path`.
pub open spec fn pending_on(v: PendingView, path: Seq<char>) -> WritesView {
    if v.writes.contains_key(path) {
        v.writes[path]
    } else {
        no_writes()
    }
}

/// What taking a write of the file at `path` in does to the file's writes.
pub open spec fn taking_in(v: PendingView, path: Seq<char>, w: BufferView) -> SeriesView {
    with_write(going_on(pending_on(v, path), v.next), w)
}

/// The writes of all files once a write of the file at `path` was taken in.
pub open spec fn after_write(v: PendingView, path: Seq<char>, w: BufferView) -> PendingView {
    let after = taking_in(v, path, w);
    PendingView {
        writes: v.writes.insert(
            path,
            WritesView { buffer: after.buffer, handles: after.handles },
        ),
        next: after.next,
    }
}

/// What flushing the file at `path` does to the file's writes.
pub open spec fn draining(v: PendingView, path: Seq<char>) -> SeriesView {
    flushed(going_on(pending_on(v, path), v.next))
}

/// The writes of all files once the file at `path` was flushed.
pub open spec fn after_drain(v: PendingView, path: Seq<char>) -> PendingView {
    PendingView { writes: v.writes.remove(path), next: draining(v, path).next }
}

/// What a write wants done.
#[derive(Debug)]
pub struct WritePlan {
    /// These writes have to be started, under these numbers.
    pub start: Vec<(u64, WriteBuffer)>,
    /// The writes with these numbers have to be waited for.
    pub wait: Vec<u64>,
}

/// The buffers that a plan starts.
pub open spec fn started(start: Seq<(u64, WriteBuffer)>) -> Seq<BufferView> {
    start.map_values(|p: (u64, WriteBuffer)| p.1@)
}

/// The numbers under which a plan starts them.
pub open spec fn started_numbers(start: Seq<(u64, WriteBuffer)>) -> Seq<u64> {
    start.map_values(|p: (u64, WriteBuffer)| p.0)
}

/// Each of the writes went well.
pub open spec fn all_well(outcomes: Seq<bool>) -> bool {
    forall|i: int| 0 <= i < outcomes.len() ==> #[trigger] outcomes[i]
}

/// Whether each of the writes went well.
fn went_well(outcomes: &Vec<bool>) -> (r: bool)
    ensures
        r == all_well(outcomes@),
{
    for i in 0..outcomes.len()
        invariant
            forall|k: int| 0 <= k < i ==> #[trigger] outcomes@[k],
    {
        if !outcomes[i] {
            return false;
        }
    }
    true
}

/// The other form of a path: without its leading slash, or with one. The root
/// and the empty path have none.
pub open spec fn other_form(path: Seq<char>) -> Option<Seq<char>> {
    if path.len() > 0 && path[0] == '/' {
        if path.len() > 1 {
            Some(path.drop_first())
        } else {
            None
        }
    } else if path.len() > 0 {
        Some("/"@ + path)
    } else {
        None
    }
}

/// The chunks without those of `path`, in either form.
pub open spec fn files_without(
    files: Map<Seq<char>, Map<u64, ChunkView>>,
    path: Seq<char>,
) -> Map<Seq<char>, Map<u64, ChunkView>> {
    match other_form(path) {
        Some(other) => files.remove(path).remove(other),
        None => files.remove(path),
    }
}

/// The listings without those of `path`, in either form, and of the directory
/// above it.
pub open spec fn dirs_without(
    dirs: Map<Seq<char>, ListingView>,
    path: Seq<char>,
) -> Map<Seq<char>, ListingView> {
    match other_form(path) {
        Some(other) => listings_without(listings_without(dirs, path), other),
        None => listings_without(dirs, path),
    }
}

/// The first entry with this name.
pub open spec fn entry_named(entries: Seq<FileEntry>, name: Seq<char>) -> Option<FileEntry>
    decreases entries.len(),
{
    if entries.len() == 0 {
        None
    } else {
        match entry_named(entries.drop_last(), name) {
            Some(e) => Some(e),
            None => if entries.last().name@ == name {
                Some(entries.last())
            } else {
                None
            },
        }
    }
}

/// The first entry with this name.
pub fn find_entry(entries: &Vec<FileEntry>, name: &str) -> (r: Option<FileEntry>)
    ensures
        r == entry_named(entries@, name@),
        r matches Some(e) ==> e.name@ == name@ && entries@.contains(e),
        r is None <==> forall|i: int| 0 <= i < entries@.len() ==> (#[trigger] entries@[i]).name@ != name@,
{
    proof {
        law_entry_named(entries@, name@);
    }
    let mut found: Option<FileEntry> = None;
    assert(entries@.take(0) =~= Seq::<FileEntry>::empty());
    for i in 0..entries.len()
        invariant
            found == entry_named(entries@.take(i as int), name@),
    {
        assert(entries@.take(i as int + 1).drop_last() =~= entries@.take(i as int));
        if found.is_none() && same_text(entries[i].name.as_str(), name) {
            found = Some(entries[i].clone());
        }
    }
    assert(entries@.take(entries@.len() as int) =~= entries@);
    found
}

/// Where looking an entry up stands.
#[derive(Debug)]
pub enum LookupStep {
    /// This directory has to be listed.
    List(String),
    /// This is the entry and its number, or why there is none.
    Done(Result<(u64, FileEntry), Errno>),
}

/// The entry of the root.
pub open spec fn is_root_entry(e: FileEntry, now: u64) -> bool {
    &&& e.name@ == "/"@
    &&& e.is_dir
    &&& e.size == 0
    &&& e.mtime == now
    &&& e.ctime == now
    &&& e.mode == 0o755
}

/// The entry of the root.
fn root_entry(now: u64) -> (e: FileEntry)
    ensures
        is_root_entry(e, now),
{
    FileEntry { name: owned("/"), is_dir: true, size: 0, mtime: now, ctime: now, mode: 0o755 }
}

/// What looking for `name` in a listing gives; what is found gets the next
/// number.
pub open spec fn looked_in(
    step: LookupStep,
    listing: Result<Vec<FileEntry>, ApiError>,
    name: Seq<char>,
    counter: u64,
    after: u64,
) -> bool {
    match listing {
        Err(e) => step matches LookupStep::Done(Err(x)) && x == e.errno && after == counter,
        Ok(entries) => match entry_named(entries@, name) {
            Some(e) => step matches LookupStep::Done(Ok(p)) && p.0 == counter && p.1 == e && after
                == counter + 1,
            None => step matches LookupStep::Done(Err(x)) && x == Errno::NoEnt && after == counter,
        },
    }
}

/// A file or directory that was opened or made.
#[derive(Debug, Clone, Copy, PartialEq, Eq, Structural)]
pub struct Created {
    pub is_dir: bool,
    pub new_file_created: bool,
}

/// Where opening stands.
#[derive(Debug)]
pub enum CreateStep {
    /// This directory has to be made.
    MakeDirectory(String),
    /// This file has to be made, empty.
    MakeFile(String),
    /// It ended.
    Done(Result<Created, NtStatus>),
}

/// The disposition lets something be made that is missing.
pub open spec fn may_create(disposition: u32) -> bool {
    disposition == FILE_CREATE || disposition == FILE_OPEN_IF || disposition == FILE_OVERWRITE_IF
        || disposition == FILE_SUPERSEDE
}

/// What is told of a file. The times are the bit patterns of floating-point
/// seconds since the epoch.
#[derive(Debug, Clone, Copy, PartialEq, Eq, Structural)]
pub struct FileInformation {
    pub attributes: u32,
    pub creation_time: u64,
    pub last_access_time: u64,
    pub last_write_time: u64,
    pub file_size: u64,
    pub number_of_links: u32,
    pub file_index: u64,
}

/// The attribute that tells directories from files.
pub open spec fn attributes_for(is_dir: bool) -> u32 {
    if is_dir {
        FILE_ATTRIBUTE_DIRECTORY
    } else {
        FILE_ATTRIBUTE_NORMAL
    }
}

/// The attribute that tells directories from files.
fn attributes_of(is_dir: bool) -> (a: u32)
    ensures
        a == attributes_for(is_dir),
        is_dir ==> a == 0x10,
        !is_dir ==> a == 0x80,
{
    if is_dir {
        FILE_ATTRIBUTE_DIRECTORY
    } else {
        FILE_ATTRIBUTE_NORMAL
    }
}

/// What is told of a file, given what looking it up gave.
pub fn get_file_information(looked: &Result<(u64, FileEntry), Errno>) -> (r: Result<
    FileInformation,
    NtStatus,
>)
    ensures
        match *looked {
            Ok((ino, e)) => r == Ok::<FileInformation, NtStatus>(
                FileInformation {
                    attributes: attributes_for(e.is_dir),
                    creation_time: e.ctime,
                    last_access_time: e.mtime,
                    last_write_time: e.mtime,
                    file_size: e.size,
                    number_of_links: 1,
                    file_index: ino,
                },
            ),
            Err(e) => r == Err::<FileInformation, NtStatus>(nt_status(Some(e))),
        },
        looked is Ok <==> r is Ok,
        *looked matches Ok(p) ==> (r matches Ok(i) ==> {
            &&& i.file_size == p.1.size
            &&& i.file_index == p.0
            &&& i.creation_time == p.1.ctime
            &&& i.last_access_time == p.1.mtime
            &&& i.last_write_time == p.1.mtime
            &&& i.number_of_links == 1
            &&& p.1.is_dir ==> i.attributes == 0x10
            &&& !p.1.is_dir ==> i.attributes == 0x80
        }),
        *looked matches Err(e) ==> (e == Errno::NoEnt ==> (r matches Err(status) && status
            == -1_073_741_772)),
        r matches Err(status) ==> status != 0,
{
    match looked {
        Ok(found) => {
            let e = &found.1;
            Ok(
                FileInformation {
                    attributes: attributes_of(e.is_dir),
                    creation_time: e.ctime,
                    last_access_time: e.mtime,
                    last_write_time: e.mtime,
                    file_size: e.size,
                    number_of_links: 1,
                    file_index: found.0,
                },
            )
        },
        Err(e) => Err(posix_to_ntstatus(Some(*e))),
    }
}

/// An entry that is found in a directory, its name in sixteen-bit units.
#[derive(Debug)]
pub struct FindData {
    pub file_name: Vec<u16>,
    pub attributes: u32,
    pub creation_time: u64,
    pub last_access_time: u64,
    pub last_write_time: u64,
    pub file_size: u64,
}

/// The entry as it is found.
pub open spec fn found_as(d: FindData, e: FileEntry) -> bool {
    &&& wide_units(e.name@) == Some(d.file_name@)
    &&& d.attributes == attributes_for(e.is_dir)
    &&& d.creation_time == e.ctime
    &&& d.last_access_time == e.mtime
    &&& d.last_write_time == e.mtime
    &&& d.file_size == e.size
}

/// What is found in a directory: its entries in order, up to the first whose
/// name cannot be written in sixteen-bit units, which is a failure.
#[derive(Debug)]
pub struct Findings {
    pub entries: Vec<FindData>,
    pub failed: Option<NtStatus>,
}

/// What is found in a directory with these entries.
pub fn find_entries(entries: &Vec<FileEntry>) -> (f: Findings)
    ensures
        f.entries@.len() <= entries@.len(),
        forall|i: int| 0 <= i < f.entries@.len() ==> #[trigger] found_as(f.entries@[i], entries@[i]),
        match f.failed {
            None => f.entries@.len() == entries@.len(),
            Some(status) => status == STATUS_IO_DEVICE_ERROR && f.entries@.len() < entries@.len()
                && wide_units(entries@[f.entries@.len() as int].name@) is None,
        },
        forall|i: int|
            0 <= i < f.entries@.len() ==> (#[trigger] f.entries@[i]).file_size == entries@[i].size
                && f.entries@[i].creation_time == entries@[i].ctime && f.entries@[i].last_access_time
                == entries@[i].mtime && f.entries@[i].last_write_time == entries@[i].mtime
                && f.entries@[i].attributes == (if entries@[i].is_dir {
                0x10
            } else {
                0x80int
            }) && wide_units(entries@[i].name@) == Some(f.entries@[i].file_name@),
        f.failed is None <==> f.entries@.len() == entries@.len(),
{
    let mut found: Vec<FindData> = Vec::new();
    for i in 0..entries.len()
        invariant
            found@.len() == i,
            forall|k: int| 0 <= k < i ==> #[trigger] found_as(found@[k], entries@[k]),
    {
        let ghost before = found@;
        match wide(entries[i].name.as_str()) {
            Some(file_name) => {
                found.push(
                    FindData {
                        file_name,
                        attributes: attributes_of(entries[i].is_dir),
                        creation_time: entries[i].ctime,
                        last_access_time: entries[i].mtime,
                        last_write_time: entries[i].mtime,
                        file_size: entries[i].size,
                    },
                );
                assert forall|k: int| 0 <= k < i + 1 implies #[trigger] found_as(
                    found@[k],
                    entries@[k],
                ) by {
                    if k < i {
                        assert(found@[k] == before[k]);
                    }
                }
            },
            None => {
                proof {
                    assert forall|k: int| 0 <= k < found@.len() implies found_as(
                        #[trigger] found@[k],
                        entries@[k],
                    ) by {
                        assert(found_as(found@[k], entries@[k]));
                    }
                }
                return Findings { entries: found, failed: Some(STATUS_IO_DEVICE_ERROR) };
            },
        }
    }
    proof {
        assert forall|k: int| 0 <= k < found@.len() implies found_as(
            #[trigger] found@[k],
            entries@[k],
        ) by {
            assert(found_as(found@[k], entries@[k]));
        }
    }
    Findings { entries: found, failed: None }
}

/// The directory that a search lists.
pub open spec fn search_path(path: Seq<char>) -> Seq<char> {
    if remote_path(path).len() == 0 {
        "/"@
    } else {
        "/"@ + remote_path(path)
    }
}

/// The directory that a search lists.
pub fn list_path(file_name: &str) -> (r: String)
    ensures
        r@ == search_path(file_name@),
        r@.len() > 0 && r@[0] == '/',
        r@.skip(1) == remote_path(file_name@),
{
    let path = normalize_remote_path(file_name);
    let mut r = owned("/");
    proof {
        law_search_path(file_name@);
    }
    if path.as_str().unicode_len() != 0 {
        r.append(path.as_str());
    }
    r
}

/// Where a search stands.
#[derive(Debug)]
pub enum FindStep {
    /// This directory has to be listed.
    List(String),
    /// This is what was found, or why nothing was.
    Done(Result<Vec<FileEntry>, NtStatus>),
}

/// Where to read, and how much, for an offset that may be negative: the size is
/// cut to 32 bits.
pub fn read_range(offset: i64, len: usize) -> (r: (u64, u32))
    ensures
        r.0 == (if offset < 0 {
            0
        } else {
            offset as int
        }),
        r.1 == len as int % 0x1_0000_0000int,
        offset >= 0 ==> r.0 == offset,
        offset < 0 ==> r.0 == 0,
        len <= u32::MAX ==> r.1 == len,
{
    let from: u64 = if offset < 0 {
        0
    } else {
        offset as u64
    };
    (from, (len as u64 % 0x1_0000_0000) as u32)
}

/// What goes into a buffer of `len` bytes of what was read.
pub fn fill(data: &Vec<u8>, len: usize) -> (r: Vec<u8>)
    ensures
        r@ == slice(data@, 0, len as int),
        r@.len() == (if data@.len() < len {
            data@.len()
        } else {
            len as nat
        }),
        forall|i: int| 0 <= i < r@.len() ==> #[trigger] r@[i] == data@[i],
{
    slice_of(data, 0, len as u64)
}

/// Where removing or moving stands.
#[derive(Debug)]
pub enum ChangeStep {
    /// The server has to be asked to delete this.
    Delete(String),
    /// The server has to be asked to rename one to the other.
    Rename(String, String),
    /// It ended.
    Done(Result<(), NtStatus>),
}

/// What is told of the drive.
#[derive(Debug)]
pub struct VolumeInfo {
    pub name: String,
    pub serial_number: u32,
    pub max_component_length: u32,
    pub fs_flags: u32,
    pub fs_name: String,
}

/// What is told of the drive.
pub fn get_volume_information() -> (v: VolumeInfo)
    ensures
        v.name@ == "RemoteFS"@,
        v.serial_number == 12345,
        v.max_component_length == 255,
        v.fs_flags == 0,
        v.fs_name@ == "NTFS"@,
{
    VolumeInfo {
        name: owned("RemoteFS"),
        serial_number: 12345,
        max_component_length: 255,
        fs_flags: 0,
        fs_name: owned("NTFS"),
    }
}

/// The space on the drive: available, in all, and free.
pub fn get_disk_free_space() -> (r: (u64, u64, u64))
    ensures
        r == (1_073_741_824u64, 1_073_741_824u64, 1_073_741_824u64),
{
    (1_073_741_824, 1_073_741_824, 1_073_741_824)
}

/// Where the drive is mounted: a letter with a colon gets a backslash.
pub open spec fn mount_text(mountpoint: Seq<char>) -> Seq<char> {
    if mountpoint.len() > 0 && mountpoint.last() == ':' {
        mountpoint + "\\"@
    } else {
        mountpoint
    }
}

/// Where the drive is mounted.
pub fn mount_path(mountpoint: &str) -> (r: String)
    ensures
        r@ == mount_text(mountpoint@),
        r@.take(mountpoint@.len() as int) == mountpoint@,
        mountpoint@.len() > 0 && mountpoint@.last() == ':' <==> r@.len() == mountpoint@.len() + 1,
        r@.len() == mountpoint@.len() || (r@.len() == mountpoint@.len() + 1 && r@.last() == '\\'),
{
    let mut r = owned(mountpoint);
    let n: usize = mountpoint.unicode_len();
    if n > 0 && mountpoint.get_char(n - 1) == ':' {
        r.append("\\");
    }
    proof {
        reveal_strlit("\\");
        assert(r@.take(mountpoint@.len() as int) =~= mountpoint@);
    }
    r
}

/// The drive.
pub struct DokanyFs {
    pub ino_counter: u64,
    pub cache: CacheManager,
    pub last_cleanup: i64,
    pub pending_writes: PathTable<FileWriteState>,
    pub next_task: u64,
}

impl DokanyFs {
    /// The caches and the table of writes are consistent, and no file has more
    /// collected than may stay.
    pub open spec fn wf(&self) -> bool {
        &&& self.cache.wf()
        &&& self.pending_writes.wf()
        &&& forall|p: Seq<char>| #[trigger]
            self.writes().contains_key(p) ==> is_held(self.writes()[p].buffer)
    }

    /// The writes of each file.
    pub open spec fn writes(&self) -> Map<Seq<char>, WritesView> {
        self.pending_writes@.map_values(|s: FileWriteState| s@)
    }

    /// The writes of all files, and the next number.
    pub open spec fn pending(&self) -> PendingView {
        PendingView { writes: self.writes(), next: self.next_task as nat }
    }

    /// The caches are those of `other`.
    pub open spec fn same_cache(&self, other: &Self) -> bool {
        &&& self.cache.same_settings(&other.cache)
        &&& self.cache.files() == other.cache.files()
        &&& self.cache.dirs() == other.cache.dirs()
    }

    /// All but the caches is as in `other`.
    pub open spec fn same_but_cache(&self, other: &Self) -> bool {
        &&& self.ino_counter == other.ino_counter
        &&& self.last_cleanup == other.last_cleanup
        &&& self.writes() == other.writes()
        &&& self.next_task == other.next_task
    }

    /// The caches no longer hold anything of the two paths, in either form.
    pub open spec fn forgot(&self, other: &Self, path: Seq<char>, parent: Seq<char>) -> bool {
        &&& self.cache.same_settings(&other.cache)
        &&& self.cache.files() == files_without(files_without(other.cache.files(), path), parent)
        &&& self.cache.dirs() == dirs_without(dirs_without(other.cache.dirs(), path), parent)
    }

    /// A drive on which nothing was done yet.
    pub fn new(chunk_size_kb: Option<&str>, cache_size_mb: Option<&str>) -> (fs: Self)
        ensures
            fs.wf(),
            fs.ino_counter == 2,
            fs.next_task == 0,
            fs.last_cleanup >= 0,
            fs.writes() == Map::<Seq<char>, WritesView>::empty(),
            fs.cache.chunk_size == chunk_size_for(opt_text(chunk_size_kb)),
            fs.cache.max_cache_size == cache_size_for(opt_text(cache_size_mb)),
            fs.cache.files() == Map::<Seq<char>, Map<u64, ChunkView>>::empty(),
            fs.cache.dirs() == Map::<Seq<char>, ListingView>::empty(),
    {
        let cache = CacheManager::new(chunk_size_kb, cache_size_mb);
        let last_cleanup: i64 = cache.clock.now();
        let fs = DokanyFs {
            ino_counter: 2,
            cache,
            last_cleanup,
            pending_writes: PathTable::new(),
            next_task: 0,
        };
        assert(fs.writes() =~= Map::<Seq<char>, WritesView>::empty());
        fs
    }

    /// The next number.
    pub fn next_ino(&mut self) -> (ino: u64)
        requires
            old(self).wf(),
            old(self).ino_counter < u64::MAX,
        ensures
            final(self).wf(),
            ino == old(self).ino_counter,
            final(self).ino_counter == ino + 1,
            final(self).same_cache(old(self)),
            final(self).writes() == old(self).writes(),
            final(self).last_cleanup == old(self).last_cleanup,
            final(self).next_task == old(self).next_task,
    {
        let ino: u64 = self.ino_counter;
        self.ino_counter = ino + 1;
        ino
    }

    /// The step from a listing to the entry in it.
    fn pick(&mut self, listing: Result<Vec<FileEntry>, ApiError>, name: &str) -> (step: LookupStep)
        requires
            old(self).wf(),
            old(self).ino_counter < u64::MAX,
        ensures
            final(self).wf(),
            looked_in(step, listing, name@, old(self).ino_counter, final(self).ino_counter),
            final(self).same_cache(old(self)),
            final(self).writes() == old(self).writes(),
            final(self).last_cleanup == old(self).last_cleanup,
            final(self).next_task == old(self).next_task,
            step is Done,
            listing matches Ok(entries) ==> (step matches LookupStep::Done(Ok(p)) ==> p.1.name@ == name@
                && entries@.contains(p.1)),
            listing matches Ok(entries) ==> ((step == LookupStep::Done(Err(Errno::NoEnt))) <==> forall|i: int|
                0 <= i < entries@.len() ==> (#[trigger] entries@[i]).name@ != name@),
            listing matches Err(e) ==> step == LookupStep::Done(Err(e.errno)),
    {
        match listing {
            Err(e) => LookupStep::Done(Err(e.errno)),
            Ok(entries) => match find_entry(&entries, name) {
                Some(entry) => {
                    let ino: u64 = self.next_ino();
                    LookupStep::Done(Ok((ino, entry)))
                },
                None => LookupStep::Done(Err(Errno::NoEnt)),
            },
        }
    }

    /// The entry at a path, from the listing of its directory at `at`, which may
    /// be a cached one. `wall` is the time to show for the root.
    pub fn lookup_entry_at(
        &mut self,
        path: &str,
        fetched: Option<Result<Vec<FileEntry>, ApiError>>,
        wall: u64,
        at: i64,
    ) -> (step: LookupStep)
        requires
            old(self).wf(),
            old(self).ino_counter < u64::MAX,
        ensures
            final(self).wf(),
            final(self).writes() == old(self).writes(),
            final(self).last_cleanup == old(self).last_cleanup,
            final(self).next_task == old(self).next_task,
            looked_up(*old(self), *final(self), path@, fetched, wall, at, step),
            trim_start(path@, '/').len() == 0 ==> (step matches LookupStep::Done(Ok(p)) && p.0 == 1
                && p.1.is_dir && p.1.size == 0 && p.1.mtime == wall && p.1.ctime == wall && p.1.mode == 0o755),
            trim_start(path@, '/').len() > 0 ==> (step matches LookupStep::Done(Ok(p)) ==> p.0 == old(self).ino_counter && final(self).ino_counter == p.0 + 1 && p.1.name@ == parent_and_name(
                trim_start(path@, '/'),
            ).1),
            !(step matches LookupStep::Done(Ok(_))) ==> final(self).ino_counter == old(self).ino_counter,
            step matches LookupStep::List(d) ==> d@ == parent_and_name(trim_start(path@, '/')).0,
            trim_start(path@, '/').len() > 0 && !(old(self).cache.dirs().contains_key(parent_and_name(trim_start(path@, '/')).0) && at - old(self).cache.dirs()[parent_and_name(trim_start(path@, '/')).0].created_at <= old(self).cache.dirs()[parent_and_name(trim_start(path@, '/')).0].ttl) ==> (fetched matches Some(Ok(all)) ==> ((step
                matches LookupStep::Done(Ok(p)) && all@.contains(p.1)) || (step == LookupStep::Done(
                Err(Errno::NoEnt),
            ) && forall|i: int| 0 <= i < all@.len() ==> (#[trigger] all@[i]).name@ != parent_and_name(trim_start(path@, '/')).1))),
            trim_start(path@, '/').len() > 0 && !(old(self).cache.dirs().contains_key(parent_and_name(trim_start(path@, '/')).0) && at - old(self).cache.dirs()[parent_and_name(trim_start(path@, '/')).0].created_at <= old(self).cache.dirs()[parent_and_name(trim_start(path@, '/')).0].ttl) ==> (fetched matches Some(Err(e)) ==> step
                == LookupStep::Done(Err(e.errno))),
            trim_start(path@, '/').len() > 0 && !(old(self).cache.dirs().contains_key(parent_and_name(trim_start(path@, '/')).0) && at - old(self).cache.dirs()[parent_and_name(trim_start(path@, '/')).0].created_at <= old(self).cache.dirs()[parent_and_name(trim_start(path@, '/')).0].ttl) ==> (fetched is None ==> step is List),
            trim_start(path@, '/').len() > 0 && old(self).cache.dirs().contains_key(parent_and_name(trim_start(path@, '/')).0) && at - old(self).cache.dirs()[parent_and_name(trim_start(path@, '/')).0].created_at <= old(self).cache.dirs()[parent_and_name(trim_start(path@, '/')).0].ttl ==> step is Done,
    {
        let normalized = trim_start_char(path, '/');
        if normalized.unicode_len() == 0 {
            return LookupStep::Done(Ok((1, root_entry(wall))));
        }
        let (parent, name) = split_parent_and_name(normalized);
        let answer = self.cache.list_directory_cached_at(parent.as_str(), fetched, at);
        let ghost listing = answer;
        let step = match answer {
            None => LookupStep::List(parent),
            Some(l) => self.pick(l, name.as_str()),
        };
        assert(listed(
            old(self).cache.dirs(),
            parent_and_name(trim_start(path@, '/')).0,
            fetched,
            at,
            listing,
            self.cache.dirs(),
        ));
        step
    }

    /// The entry at a path, from the listing of its directory, which may be a
    /// cached one.
    pub fn lookup_entry(
        &mut self,
        path: &str,
        fetched: Option<Result<Vec<FileEntry>, ApiError>>,
        wall: u64,
    ) -> (step: LookupStep)
        requires
            old(self).wf(),
            old(self).ino_counter < u64::MAX,
        ensures
            final(self).wf(),
            final(self).writes() == old(self).writes(),
            final(self).last_cleanup == old(self).last_cleanup,
            final(self).next_task == old(self).next_task,
            exists|at: i64|
                at >= 0 && #[trigger] looked_up(
                    *old(self),
                    *final(self),
                    path@,
                    fetched,
                    wall,
                    at,
                    step,
                ),
    {
        let at: i64 = self.cache.clock.now();
        self.lookup_entry_at(path, fetched, wall, at)
    }

    /// The entry at a path, from a listing of its directory that was just
    /// fetched.
    pub fn lookup_entry_fresh(
        &mut self,
        path: &str,
        fetched: Option<Result<Vec<FileEntry>, ApiError>>,
        wall: u64,
    ) -> (step: LookupStep)
        requires
            old(self).wf(),
            old(self).ino_counter < u64::MAX,
        ensures
            final(self).wf(),
            final(self).same_cache(old(self)),
            final(self).writes() == old(self).writes(),
            final(self).last_cleanup == old(self).last_cleanup,
            final(self).next_task == old(self).next_task,
            ({
                let normalized = trim_start(path@, '/');
                let (parent, name) = parent_and_name(normalized);
                if normalized.len() == 0 {
                    &&& step matches LookupStep::Done(Ok(p))
                    &&& p.0 == 1
                    &&& is_root_entry(p.1, wall)
                    &&& final(self).ino_counter == old(self).ino_counter
                } else {
                    match fetched {
                        None => (step matches LookupStep::List(p) && p@ == parent) && final(self).ino_counter == old(self).ino_counter,
                        Some(listing) => looked_in(
                            step,
                            listing,
                            name,
                            old(self).ino_counter,
                            final(self).ino_counter,
                        ),
                    }
                }
            }),
            trim_start(path@, '/').len() == 0 ==> (step matches LookupStep::Done(Ok(p)) && p.0 == 1
                && p.1.is_dir && p.1.size == 0 && p.1.mtime == wall && p.1.ctime == wall && p.1.mode == 0o755),
            trim_start(path@, '/').len() > 0 ==> (step matches LookupStep::Done(Ok(p)) ==> p.0 == old(self).ino_counter && final(self).ino_counter == p.0 + 1 && p.1.name@ == parent_and_name(
                trim_start(path@, '/'),
            ).1),
            !(step matches LookupStep::Done(Ok(_))) ==> final(self).ino_counter == old(self).ino_counter,
            step matches LookupStep::List(d) ==> d@ == parent_and_name(trim_start(path@, '/')).0,

            trim_start(path@, '/').len() > 0 ==> (fetched matches Some(Ok(entries)) ==> ((step
                matches LookupStep::Done(Ok(p)) && entries@.contains(p.1)) || (step
                == LookupStep::Done(Err(Errno::NoEnt)) && forall|i: int|
                0 <= i < entries@.len() ==> (#[trigger] entries@[i]).name@ != parent_and_name(
                    trim_start(path@, '/'),
                ).1))),
            trim_start(path@, '/').len() > 0 ==> (fetched matches Some(Err(e)) ==> step == LookupStep::Done(
                Err(e.errno),
            )),
            trim_start(path@, '/').len() > 0 ==> (fetched is None <==> step is List),
    {
        let normalized = trim_start_char(path, '/');
        if normalized.unicode_len() == 0 {
            return LookupStep::Done(Ok((1, root_entry(wall))));
        }
        let (parent, name) = split_parent_and_name(normalized);
        match fetched {
            None => LookupStep::List(parent),
            Some(listing) => self.pick(listing, name.as_str()),
        }
    }

    /// Forgets what the caches hold of a path, in either form.
    pub fn invalidate_path(&mut self, path: &str)
        requires
            old(self).wf(),
        ensures
            final(self).wf(),
            final(self).same_but_cache(old(self)),
            final(self).cache.same_settings(&old(self).cache),
            final(self).cache.files() == files_without(old(self).cache.files(), path@),
            final(self).cache.dirs() == dirs_without(old(self).cache.dirs(), path@),
            !final(self).cache.files().contains_key(path@),
            !final(self).cache.dirs().contains_key(path@),
            path@.len() > 0 && path@[0] != '/' ==> !final(self).cache.files().contains_key("/"@ + path@)
                && !final(self).cache.dirs().contains_key("/"@ + path@),
    {
        self.cache.invalidate_all_for_path(path);
        let n: usize = path.unicode_len();
        if n > 0 && path.get_char(0) == '/' {
            if n > 1 {
                let stripped = path.substring_char(1, n);
                assert(stripped@ =~= path@.drop_first());
                self.cache.invalidate_all_for_path(stripped);
            }
        } else if n > 0 {
            let mut absolute = owned("/");
            absolute.append(path);
            self.cache.invalidate_all_for_path(absolute.as_str());
        }
    }

    /// Forgets what the caches hold of a path and of the directory it lies in.
    fn forget(&mut self, path: &str)
        requires
            old(self).wf(),
        ensures
            final(self).wf(),
            final(self).same_but_cache(old(self)),
            final(self).forgot(old(self), path@, parent_and_name(path@).0),
            ({
                let path = path@;
                &&& !final(self).cache.files().contains_key(path)
                &&& !final(self).cache.dirs().contains_key(path)
                &&& !final(self).cache.files().contains_key(parent_and_name(path).0)
                &&& !final(self).cache.dirs().contains_key(parent_and_name(path).0)
                &&& path.len() > 0 && path[0] != '/' ==> !final(self).cache.files().contains_key("/"@ + path)
                    && !final(self).cache.dirs().contains_key("/"@ + path)
            }),
    {
        let (parent, _) = split_parent_and_name(path);
        self.invalidate_path(path);
        self.invalidate_path(parent.as_str());
    }

    /// Drops what is too old from the caches, if the last time was long enough
    /// ago at `now`.
    pub fn maybe_cleanup_cache_at(&mut self, now: i64)
        requires
            old(self).wf(),
        ensures
            final(self).wf(),
            final(self).cache.same_settings(&old(self).cache),
            final(self).ino_counter == old(self).ino_counter,
            final(self).writes() == old(self).writes(),
            final(self).next_task == old(self).next_task,
            cleaned(*old(self), *final(self), now),
            now - old(self).last_cleanup >= 5_000_000_000 ==> final(self).last_cleanup == now,
            now - old(self).last_cleanup < 5_000_000_000 ==> final(self).last_cleanup == old(self).last_cleanup && final(self).cache.dirs() == old(self).cache.dirs()
                && final(self).cache.files() == old(self).cache.files(),
    {
        if now as i128 - self.last_cleanup as i128 >= METADATA_CACHE_TTL as i128 {
            self.cache.cleanup_expired_at(now);
            self.last_cleanup = now;
        }
    }

    /// Drops what is too old from the caches, if the last time was long enough
    /// ago by now.
    pub fn maybe_cleanup_cache(&mut self)
        requires
            old(self).wf(),
        ensures
            final(self).wf(),
            final(self).cache.same_settings(&old(self).cache),
            final(self).ino_counter == old(self).ino_counter,
            final(self).writes() == old(self).writes(),
            final(self).next_task == old(self).next_task,
            exists|now: i64| now >= 0 && #[trigger] cleaned(*old(self), *final(self), now),
    {
        let now: i64 = self.cache.clock.now();
        self.maybe_cleanup_cache_at(now);
    }

    /// Opens what stands at a path, or makes it. `looked` is what looking it up
    /// gave: whether it is a directory. `made` is what became of making it.
    pub fn create_file(
        &mut self,
        file_name: &str,
        disposition: u32,
        options: u32,
        looked: Result<bool, Errno>,
        made: Option<Result<(), Errno>>,
    ) -> (step: CreateStep)
        requires
            old(self).wf(),
        ensures
            final(self).wf(),
            final(self).same_but_cache(old(self)),
            ({
                let path = remote_path(file_name@);
                let wants_dir = options & FILE_DIRECTORY_FILE != 0;
                let wants_file = options & FILE_NON_DIRECTORY_FILE != 0;
                match looked {
                    Ok(is_dir) => final(self).same_cache(old(self)) && step == CreateStep::Done(
                        if wants_dir && !is_dir {
                            Err(STATUS_NOT_A_DIRECTORY)
                        } else if wants_file && is_dir {
                            Err(STATUS_ACCESS_DENIED)
                        } else if disposition == FILE_CREATE {
                            Err(STATUS_ACCESS_DENIED)
                        } else {
                            Ok(Created { is_dir, new_file_created: false })
                        },
                    ),
                    Err(Errno::NoEnt) => if !may_create(disposition) {
                        final(self).same_cache(old(self)) && step == CreateStep::Done(
                            Err(STATUS_OBJECT_NAME_NOT_FOUND),
                        )
                    } else {
                        match made {
                            None => final(self).same_cache(old(self)) && if wants_dir {
                                step matches CreateStep::MakeDirectory(p) && p@ == path
                            } else {
                                step matches CreateStep::MakeFile(p) && p@ == path
                            },
                            Some(Err(e)) => final(self).same_cache(old(self)) && step
                                == CreateStep::Done(Err(nt_status(Some(e)))),
                            Some(Ok(_)) => final(self).forgot(
                                old(self),
                                path,
                                parent_and_name(path).0,
                            ) && step == CreateStep::Done(
                                Ok(Created { is_dir: wants_dir, new_file_created: true }),
                            ),
                        }
                    },
                    Err(e) => final(self).same_cache(old(self)) && step == CreateStep::Done(
                        Err(nt_status(Some(e))),
                    ),
                }
            }),
            step matches CreateStep::Done(Ok(c)) ==> (c.new_file_created <==> looked is Err),
            step matches CreateStep::Done(Ok(c)) ==> (looked matches Ok(is_dir) ==> c.is_dir == is_dir
                && disposition != 2),
            step matches CreateStep::Done(Ok(c)) ==> (looked is Err ==> looked == Err::<bool, Errno>(
                Errno::NoEnt,
            ) && (made matches Some(Ok(_))) && (disposition == 0 || disposition == 2 || disposition == 3
                || disposition == 5)),
            step matches CreateStep::MakeFile(p) ==> looked == Err::<bool, Errno>(Errno::NoEnt) && p@
                == remote_path(file_name@) && options & 1 == 0,
            step matches CreateStep::MakeDirectory(p) ==> looked == Err::<bool, Errno>(Errno::NoEnt) && p@
                == remote_path(file_name@) && options & 1 != 0,
            looked == Err::<bool, Errno>(Errno::NoEnt) && made is None ==> ((step is MakeFile || step
                is MakeDirectory) <==> (disposition == 0 || disposition == 2 || disposition == 3 || disposition
                == 5)),
            looked is Ok ==> step is Done,
            (step matches CreateStep::Done(Ok(c)) && c.new_file_created) ==> {
                let path = remote_path(file_name@);
                &&& !final(self).cache.files().contains_key(path)
                &&& !final(self).cache.dirs().contains_key(path)
                &&& !final(self).cache.files().contains_key(parent_and_name(path).0)
                &&& !final(self).cache.dirs().contains_key(parent_and_name(path).0)
                &&& path.len() > 0 ==> !final(self).cache.files().contains_key("/"@ + path)
                    && !final(self).cache.dirs().contains_key("/"@ + path)
            },
    {
        proof {
            crate::paths::law_remote_path(file_name@);
        }
        let path = normalize_remote_path(file_name);
        let wants_dir = (options & FILE_DIRECTORY_FILE) != 0;
        let wants_file = (options & FILE_NON_DIRECTORY_FILE) != 0;
        match looked {
            Ok(is_dir) => {
                if wants_dir && !is_dir {
                    return CreateStep::Done(Err(STATUS_NOT_A_DIRECTORY));
                }
                if wants_file && is_dir {
                    return CreateStep::Done(Err(STATUS_ACCESS_DENIED));
                }
                if disposition == FILE_CREATE {
                    return CreateStep::Done(Err(STATUS_ACCESS_DENIED));
                }
                CreateStep::Done(Ok(Created { is_dir, new_file_created: false }))
            },
            Err(Errno::NoEnt) => {
                let can_create = disposition == FILE_CREATE || disposition == FILE_OPEN_IF
                    || disposition == FILE_OVERWRITE_IF || disposition == FILE_SUPERSEDE;
                if !can_create {
                    return CreateStep::Done(Err(STATUS_OBJECT_NAME_NOT_FOUND));
                }
                match made {
                    None => if wants_dir {
                        CreateStep::MakeDirectory(path)
                    } else {
                        CreateStep::MakeFile(path)
                    },
                    Some(Err(e)) => CreateStep::Done(Err(posix_to_ntstatus(Some(e)))),
                    Some(Ok(_)) => {
                        self.forget(path.as_str());
                        CreateStep::Done(Ok(Created { is_dir: wants_dir, new_file_created: true }))
                    },
                }
            },
            Err(e) => CreateStep::Done(Err(posix_to_ntstatus(Some(e)))),
        }
    }

    /// The entries of a directory at `at`: those that are cached, or that were
    /// fetched. A fetch that failed is tried once more, past the cache
    /// (`again`).
    pub fn find_files_at(
        &mut self,
        file_name: &str,
        fetched: Option<Result<Vec<FileEntry>, ApiError>>,
        again: Option<Result<Vec<FileEntry>, ApiError>>,
        at: i64,
    ) -> (step: FindStep)
        requires
            old(self).wf(),
        ensures
            final(self).wf(),
            final(self).same_but_cache(old(self)),
            searched(*old(self), *final(self), file_name@, fetched, again, at, step),
            step matches FindStep::List(p) ==> p@ == search_path(file_name@),
            step matches FindStep::Done(Err(status)) ==> status == -1_073_741_435 && (fetched
                matches Some(Err(_))) && (again matches Some(Err(_))),
            old(self).cache.dirs().contains_key(search_path(file_name@)) && at - old(self).cache.dirs()[search_path(file_name@)].created_at <= old(self).cache.dirs()[search_path(file_name@)].ttl ==> (step matches FindStep::Done(Ok(entries)) && entries@
                == old(self).cache.dirs()[search_path(file_name@)].entries),
            !(old(self).cache.dirs().contains_key(search_path(file_name@)) && at - old(self).cache.dirs()[search_path(file_name@)].created_at <= old(self).cache.dirs()[search_path(file_name@)].ttl) ==> (fetched matches Some(Ok(new)) ==> (step matches FindStep::Done(Ok(entries)) && entries@
                == new@)),
            !(old(self).cache.dirs().contains_key(search_path(file_name@)) && at - old(self).cache.dirs()[search_path(file_name@)].created_at <= old(self).cache.dirs()[search_path(file_name@)].ttl) ==> (fetched is None ==> step is List),
            !(old(self).cache.dirs().contains_key(search_path(file_name@)) && at - old(self).cache.dirs()[search_path(file_name@)].created_at <= old(self).cache.dirs()[search_path(file_name@)].ttl) ==> (fetched matches Some(Err(_)) ==> (again matches Some(Ok(new)) ==> (step
                matches FindStep::Done(Ok(entries)) && entries@ == new@))),
    {
        let path = list_path(file_name);
        let ghost dirs = self.cache.dirs();
        let listing = self.cache.list_directory_cached_at(path.as_str(), fetched, at);
        assert(listed(dirs, path@, fetched, at, listing, self.cache.dirs()));
        match listing {
            None => FindStep::List(path),
            Some(Ok(entries)) => FindStep::Done(Ok(entries)),
            Some(Err(_)) => match again {
                None => FindStep::List(path),
                Some(Ok(entries)) => FindStep::Done(Ok(entries)),
                Some(Err(_)) => FindStep::Done(Err(STATUS_IO_DEVICE_ERROR)),
            },
        }
    }

    /// The entries of a directory.
    pub fn find_files(
        &mut self,
        file_name: &str,
        fetched: Option<Result<Vec<FileEntry>, ApiError>>,
        again: Option<Result<Vec<FileEntry>, ApiError>>,
    ) -> (step: FindStep)
        requires
            old(self).wf(),
        ensures
            final(self).wf(),
            final(self).same_but_cache(old(self)),
            exists|at: i64|
                at >= 0 && #[trigger] searched(
                    *old(self),
                    *final(self),
                    file_name@,
                    fetched,
                    again,
                    at,
                    step,
                ),
    {
        let at: i64 = self.cache.clock.now();
        self.find_files_at(file_name, fetched, again, at)
    }

    /// Takes a write in: collects it with those it follows on, and says which
    /// writes have to be started and which waited for.
    pub fn write_file(&mut self, file_name: &str, offset: i64, buffer: &Vec<u8>) -> (plan: WritePlan)
        requires
            old(self).wf(),
            old(self).next_task + 2 <= u64::MAX,
            buffer@.len() + MAX_BUFFER_SIZE <= usize::MAX,
        ensures
            final(self).wf(),
            final(self).same_cache(old(self)),
            final(self).ino_counter == old(self).ino_counter,
            final(self).last_cleanup == old(self).last_cleanup,
            ({
                let path = remote_path(file_name@);
                let at = if offset < 0 {
                    0
                } else {
                    offset as nat
                };
                let w = BufferView { offset: at, data: buffer@ };
                let after = taking_in(old(self).pending(), path, w);
                &&& started(plan.start@) == after.sent
                &&& started_numbers(plan.start@) == numbers_from(
                    old(self).next_task as nat,
                    after.sent.len(),
                )
                &&& plan.wait@ == after.waited
                &&& final(self).pending() == after_write(old(self).pending(), path, w)
            }),
            ({
                let path = remote_path(file_name@);
                let end = (if offset < 0 {
                    0
                } else {
                    offset as int
                }) + buffer@.len();
                match final(self).writes()[path].buffer {
                    Some(b) => b.offset + b.data.len() == end && b.data.len() >= buffer@.len()
                        && b.data.skip(b.data.len() - buffer@.len()) == buffer@,
                    None => plan.start@.len() > 0 && {
                        let b = plan.start@.last().1;
                        &&& b.offset + b.data@.len() == end
                        &&& b.data@.len() >= buffer@.len()
                        &&& b.data@.skip(b.data@.len() - buffer@.len()) == buffer@
                    },
                }
            }),
            forall|p: Seq<char>|
                p != remote_path(file_name@) && #[trigger] old(self).writes().contains_key(p)
                    ==> final(self).writes().contains_key(p) && final(self).writes()[p] == old(self).writes()[p],
            final(self).writes()[remote_path(file_name@)].handles.len() <= 8,
            plan.wait@.len() > 0 ==> final(self).writes()[remote_path(file_name@)].handles.len() == 4,
    {
        let path = normalize_remote_path(file_name);
        let at: u64 = if offset < 0 {
            0
        } else {
            offset as u64
        };
        let ghost writes = self.writes();
        let ghost first_task = self.next_task;
        let found = self.pending_writes.remove(path.as_str());
        let mut state = match found {
            Some(s) => s,
            None => FileWriteState { buffer: None, handles: Vec::new() },
        };
        let ghost before = state@;
        assert(before == (if writes.contains_key(path@) {
            writes[path@]
        } else {
            no_writes()
        }));
        let mut start: Vec<(u64, WriteBuffer)> = Vec::new();
        let ghost gone = sent(before.buffer, at as nat, buffer@);
        let kept = match state.buffer {
            Some(b) => if at == b.offset + b.data.len() as u64 {
                let mut data = b.data;
                let mut more = copy_of(buffer);
                data.append(&mut more);
                WriteBuffer { offset: b.offset, data }
            } else {
                start.push((self.next_task, b));
                self.next_task = self.next_task + 1;
                WriteBuffer { offset: at, data: copy_of(buffer) }
            },
            None => WriteBuffer { offset: at, data: copy_of(buffer) },
        };
        assert(started(start@) =~= collected(before.buffer, at as nat, buffer@).0);
        assert(kept@ =~= collected(before.buffer, at as nat, buffer@).1);
        let ghost kept_view = kept@;
        if kept.data.len() >= MAX_BUFFER_SIZE {
            let ghost earlier = start@;
            start.push((self.next_task, kept));
            self.next_task = self.next_task + 1;
            state.buffer = None;
            assert(started(start@) =~= started(earlier).push(kept_view));
        } else {
            state.buffer = Some(kept);
        }
        assert(started(start@) =~= gone);
        assert(started_numbers(start@) =~= numbers_from(first_task as nat, gone.len()));
        let ghost rest_view = state@.buffer;
        assert(rest_view == left(before.buffer, at as nat, buffer@));
        for i in 0..start.len()
            invariant
                start@.len() == gone.len(),
                state@.buffer == rest_view,
                state.handles@ == before.handles + started_numbers(start@).take(i as int),
        {
            state.handles.push(start[i].0);
            assert(state.handles@ =~= before.handles + started_numbers(start@).take(i as int + 1));
        }
        assert(started_numbers(start@).take(start@.len() as int) =~= started_numbers(start@));
        let ghost under_way = state.handles@;
        let n: usize = state.handles.len();
        let mut wait: Vec<u64> = Vec::new();
        if n > MAX_CONCURRENT {
            let rest = state.handles.split_off(n - KEPT_CONCURRENT);
            wait = state.handles;
            state.handles = rest;
            assert(wait@ =~= waited(under_way));
            assert(state.handles@ =~= unwaited(under_way));
        }
        let ghost after = state@;
        assert(after.buffer == left(before.buffer, at as nat, buffer@));
        self.pending_writes.insert(path, state);
        assert(self.writes() =~= writes.insert(path@, after));
        assert(Seq::<BufferView>::empty() + gone =~= gone);
        assert(Seq::<u64>::empty() + waited(under_way) =~= waited(under_way));
        WritePlan { start, wait }
    }

    /// The answer to a write of `len` bytes, given which of the writes that had to
    /// be waited for went well.
    pub fn write_answer(&mut self, file_name: &str, len: u32, outcomes: &Vec<bool>) -> (r: Result<
        u32,
        NtStatus,
    >)
        requires
            old(self).wf(),
        ensures
            final(self).wf(),
            final(self).same_but_cache(old(self)),
            if all_well(outcomes@) {
                r == Ok::<u32, NtStatus>(len) && final(self).forgot(
                    old(self),
                    remote_path(file_name@),
                    parent_and_name(remote_path(file_name@)).0,
                )
            } else {
                r == Err::<u32, NtStatus>(STATUS_IO_DEVICE_ERROR) && final(self).same_cache(
                    old(self),
                )
            },
            (forall|i: int| 0 <= i < outcomes@.len() ==> #[trigger] outcomes@[i]) <==> r is Ok,
            r matches Ok(n) ==> n == len,
            r matches Err(status) ==> status == -1_073_741_435,
            r is Ok ==> {
                let path = remote_path(file_name@);
                &&& !final(self).cache.files().contains_key(path)
                &&& !final(self).cache.dirs().contains_key(path)
                &&& !final(self).cache.files().contains_key(parent_and_name(path).0)
                &&& !final(self).cache.dirs().contains_key(parent_and_name(path).0)
                &&& path.len() > 0 ==> !final(self).cache.files().contains_key("/"@ + path)
                    && !final(self).cache.dirs().contains_key("/"@ + path)
            },
    {
        proof {
            crate::paths::law_remote_path(file_name@);
        }
        if !went_well(outcomes) {
            return Err(STATUS_IO_DEVICE_ERROR);
        }
        let path = normalize_remote_path(file_name);
        self.forget(path.as_str());
        Ok(len)
    }

    /// What is left to be done of a file's writes: what was collected has to be
    /// started, and all that is under way waited for.
    pub fn drain(&mut self, file_name: &str) -> (plan: WritePlan)
        requires
            old(self).wf(),
            old(self).next_task < u64::MAX,
        ensures
            final(self).wf(),
            final(self).same_cache(old(self)),
            final(self).ino_counter == old(self).ino_counter,
            final(self).last_cleanup == old(self).last_cleanup,
            ({
                let path = remote_path(file_name@);
                let after = draining(old(self).pending(), path);
                &&& final(self).pending() == after_drain(old(self).pending(), path)
                &&& started(plan.start@) == after.sent
                &&& started_numbers(plan.start@) == numbers_from(
                    old(self).next_task as nat,
                    after.sent.len(),
                )
                &&& plan.wait@ == after.waited
            }),
            !final(self).writes().contains_key(remote_path(file_name@)),
            old(self).writes().contains_key(remote_path(file_name@)) ==> (old(self).writes()[remote_path(
                file_name@,
            )].buffer matches Some(b) ==> plan.start@.len() == 1 && plan.start@[0].1.offset == b.offset
                && plan.start@[0].1.data@ == b.data),
    {
        let path = normalize_remote_path(file_name);
        let ghost writes = self.writes();
        let ghost first = self.next_task as nat;
        let found = self.pending_writes.remove(path.as_str());
        assert(self.writes() =~= writes.remove(path@));
        let mut start: Vec<(u64, WriteBuffer)> = Vec::new();
        let mut wait: Vec<u64> = Vec::new();
        if let Some(state) = found {
            assert(writes.contains_key(path@));
            wait = state.handles;
            if let Some(b) = state.buffer {
                let task: u64 = self.next_task;
                self.next_task = task + 1;
                start.push((task, b));
                wait.push(task);
                assert(started(start@) =~= seq![b@]);
                assert(started_numbers(start@) =~= numbers_from(first, 1));
                assert(wait@ =~= writes[path@].handles + numbers_from(first, 1));
            } else {
                assert(started(start@) =~= Seq::<BufferView>::empty());
                assert(started_numbers(start@) =~= numbers_from(first, 0));
                assert(wait@ =~= writes[path@].handles + numbers_from(first, 0));
            }
        } else {
            assert(started(start@) =~= Seq::<BufferView>::empty());
            assert(started_numbers(start@) =~= numbers_from(first, 0));
            assert(wait@ =~= Seq::<u64>::empty() + numbers_from(first, 0));
        }
        WritePlan { start, wait }
    }

    /// The answer to a flush, given which of the writes that were waited for went
    /// well.
    pub fn flush_answer(outcomes: &Vec<bool>) -> (r: Result<(), NtStatus>)
        ensures
            if all_well(outcomes@) {
                r is Ok
            } else {
                r == Err::<(), NtStatus>(STATUS_IO_DEVICE_ERROR)
            },
            (forall|i: int| 0 <= i < outcomes@.len() ==> #[trigger] outcomes@[i]) <==> r is Ok,
            r matches Err(status) ==> status == -1_073_741_435,
    {
        if went_well(outcomes) {
            Ok(())
        } else {
            Err(STATUS_IO_DEVICE_ERROR)
        }
    }

    /// Removes a file. `looked` is what looking it up afresh gave: whether it is a
    /// directory.
    pub fn delete_file(
        &mut self,
        file_name: &str,
        looked: Result<bool, Errno>,
        deleted: Option<Result<(), Errno>>,
    ) -> (step: ChangeStep)
        requires
            old(self).wf(),
        ensures
            final(self).wf(),
            final(self).same_but_cache(old(self)),
            removed(*old(self), *final(self), file_name@, false, looked, deleted, step),
            looked == Ok::<bool, Errno>(true) ==> (step matches ChangeStep::Done(
                Err(status),
            ) && status == -1_073_741_790),
            looked == Ok::<bool, Errno>(!true) ==> (deleted is None <==> step is Delete),
            step matches ChangeStep::Delete(p) ==> p@ == remote_path(file_name@),
            !(step is Rename),
            (step matches ChangeStep::Done(Ok(_))) <==> looked == Ok::<bool, Errno>(!true) && (deleted
                matches Some(Ok(_))),
            (step matches ChangeStep::Done(Ok(_))) ==> {
                let path = remote_path(file_name@);
                &&& !final(self).cache.files().contains_key(path)
                &&& !final(self).cache.dirs().contains_key(path)
                &&& !final(self).cache.files().contains_key(parent_and_name(path).0)
                &&& !final(self).cache.dirs().contains_key(parent_and_name(path).0)
                &&& path.len() > 0 ==> !final(self).cache.files().contains_key("/"@ + path)
                    && !final(self).cache.dirs().contains_key("/"@ + path)
            },
    {
        match looked {
            Ok(is_dir) => {
                if is_dir {
                    return ChangeStep::Done(Err(STATUS_ACCESS_DENIED));
                }
            },
            Err(e) => {
                return ChangeStep::Done(Err(posix_to_ntstatus(Some(e))));
            },
        }
        self.delete(file_name, deleted)
    }

    /// Removes a directory.
    pub fn delete_directory(
        &mut self,
        file_name: &str,
        looked: Result<bool, Errno>,
        deleted: Option<Result<(), Errno>>,
    ) -> (step: ChangeStep)
        requires
            old(self).wf(),
        ensures
            final(self).wf(),
            final(self).same_but_cache(old(self)),
            removed(*old(self), *final(self), file_name@, true, looked, deleted, step),
            looked == Ok::<bool, Errno>(false) ==> (step matches ChangeStep::Done(
                Err(status),
            ) && status == -1_073_741_565),
            looked == Ok::<bool, Errno>(!false) ==> (deleted is None <==> step is Delete),
            step matches ChangeStep::Delete(p) ==> p@ == remote_path(file_name@),
            !(step is Rename),
            (step matches ChangeStep::Done(Ok(_))) <==> looked == Ok::<bool, Errno>(!false) && (deleted
                matches Some(Ok(_))),
            (step matches ChangeStep::Done(Ok(_))) ==> {
                let path = remote_path(file_name@);
                &&& !final(self).cache.files().contains_key(path)
                &&& !final(self).cache.dirs().contains_key(path)
                &&& !final(self).cache.files().contains_key(parent_and_name(path).0)
                &&& !final(self).cache.dirs().contains_key(parent_and_name(path).0)
                &&& path.len() > 0 ==> !final(self).cache.files().contains_key("/"@ + path)
                    && !final(self).cache.dirs().contains_key("/"@ + path)
            },
    {
        match looked {
            Ok(is_dir) => {
                if !is_dir {
                    return ChangeStep::Done(Err(STATUS_NOT_A_DIRECTORY));
                }
            },
            Err(e) => {
                return ChangeStep::Done(Err(posix_to_ntstatus(Some(e))));
            },
        }
        self.delete(file_name, deleted)
    }

    /// Deletes what stands at a path.
    fn delete(&mut self, file_name: &str, deleted: Option<Result<(), Errno>>) -> (step: ChangeStep)
        requires
            old(self).wf(),
        ensures
            final(self).wf(),
            final(self).same_but_cache(old(self)),
            deletes(*old(self), *final(self), file_name@, deleted, step),
            (step matches ChangeStep::Done(Ok(_))) ==> {
                let path = remote_path(file_name@);
                &&& !final(self).cache.files().contains_key(path)
                &&& !final(self).cache.dirs().contains_key(path)
                &&& !final(self).cache.files().contains_key(parent_and_name(path).0)
                &&& !final(self).cache.dirs().contains_key(parent_and_name(path).0)
                &&& path.len() > 0 ==> !final(self).cache.files().contains_key("/"@ + path)
                    && !final(self).cache.dirs().contains_key("/"@ + path)
            },
    {
        proof {
            crate::paths::law_remote_path(file_name@);
        }
        let path = normalize_remote_path(file_name);
        match deleted {
            None => ChangeStep::Delete(path),
            Some(Err(e)) => ChangeStep::Done(Err(posix_to_ntstatus(Some(e)))),
            Some(Ok(_)) => {
                self.forget(path.as_str());
                ChangeStep::Done(Ok(()))
            },
        }
    }

    /// Gives what stands at one path another.
    pub fn move_file(
        &mut self,
        file_name: &str,
        new_file_name: &str,
        renamed: Option<Result<(), Errno>>,
    ) -> (step: ChangeStep)
        requires
            old(self).wf(),
        ensures
            final(self).wf(),
            final(self).same_but_cache(old(self)),
            ({
                let from = remote_path(file_name@);
                let to = remote_path(new_file_name@);
                match renamed {
                    None => (step matches ChangeStep::Rename(f, t) && f@ == from && t@ == to)
                        && final(self).same_cache(old(self)),
                    Some(Err(e)) => step == ChangeStep::Done(Err(nt_status(Some(e)))) && final(self).same_cache(old(self)),
                    Some(Ok(_)) => step == ChangeStep::Done(Ok(())) && final(self).forgot(
                        old(self),
                        from,
                        to,
                    ),
                }
            }),
            renamed is None <==> step is Rename,
            step matches ChangeStep::Rename(f, t) ==> f@ == remote_path(file_name@) && t@ == remote_path(
                new_file_name@,
            ),
            !(step is Delete),
            (step matches ChangeStep::Done(Ok(_))) <==> (renamed matches Some(Ok(_))),
            (step matches ChangeStep::Done(Ok(_))) ==> {
                let path = remote_path(file_name@);
                &&& !final(self).cache.files().contains_key(path)
                &&& !final(self).cache.dirs().contains_key(path)
                &&& !final(self).cache.files().contains_key(remote_path(new_file_name@))
                &&& !final(self).cache.dirs().contains_key(remote_path(new_file_name@))
                &&& path.len() > 0 ==> !final(self).cache.files().contains_key("/"@ + path)
                    && !final(self).cache.dirs().contains_key("/"@ + path)
            },
    {
        proof {
            crate::paths::law_remote_path(file_name@);
        }
        let from = normalize_remote_path(file_name);
        let to = normalize_remote_path(new_file_name);
        match renamed {
            None => ChangeStep::Rename(from, to),
            Some(Err(e)) => ChangeStep::Done(Err(posix_to_ntstatus(Some(e)))),
            Some(Ok(_)) => {
                self.invalidate_path(from.as_str());
                self.invalidate_path(to.as_str());
                ChangeStep::Done(Ok(()))
            },
        }
    }
}

/// What looking a path up at `at` gives, and what becomes of the drive.
pub open spec fn looked_up(
    before: DokanyFs,
    after: DokanyFs,
    path: Seq<char>,
    fetched: Option<Result<Vec<FileEntry>, ApiError>>,
    wall: u64,
    at: i64,
    step: LookupStep,
) -> bool {
    let normalized = trim_start(path, '/');
    let (parent, name) = parent_and_name(normalized);
    &&& after.cache.same_settings(&before.cache)
    &&& after.cache.files() == before.cache.files()
    &&& if normalized.len() == 0 {
        &&& step matches LookupStep::Done(Ok(p))
        &&& p.0 == 1
        &&& is_root_entry(p.1, wall)
        &&& after.cache.dirs() == before.cache.dirs()
        &&& after.ino_counter == before.ino_counter
    } else {
        exists|listing: Option<Result<Vec<FileEntry>, ApiError>>| #[trigger]
            listed(before.cache.dirs(), parent, fetched, at, listing, after.cache.dirs())
                && match listing {
                None => (step matches LookupStep::List(p) && p@ == parent) && after.ino_counter
                    == before.ino_counter,
                Some(l) => looked_in(step, l, name, before.ino_counter, after.ino_counter),
            }
    }
}

/// What a search at `at` gives, and what becomes of the drive.
pub open spec fn searched(
    before: DokanyFs,
    after: DokanyFs,
    file_name: Seq<char>,
    fetched: Option<Result<Vec<FileEntry>, ApiError>>,
    again: Option<Result<Vec<FileEntry>, ApiError>>,
    at: i64,
    step: FindStep,
) -> bool {
    let path = search_path(file_name);
    &&& after.cache.same_settings(&before.cache)
    &&& after.cache.files() == before.cache.files()
    &&& exists|listing: Option<Result<Vec<FileEntry>, ApiError>>| #[trigger]
        listed(before.cache.dirs(), path, fetched, at, listing, after.cache.dirs())
            && match listing {
            None => step matches FindStep::List(p) && p@ == path,
            Some(Ok(entries)) => step == FindStep::Done(Ok(entries)),
            Some(Err(_)) => match again {
                None => step matches FindStep::List(p) && p@ == path,
                Some(Ok(entries)) => step == FindStep::Done(Ok(entries)),
                Some(Err(_)) => step == FindStep::Done(Err(STATUS_IO_DEVICE_ERROR)),
            },
        }
}

/// What becomes of the caches when they are looked after at `now`.
pub open spec fn cleaned(before: DokanyFs, after: DokanyFs, now: i64) -> bool {
    if now - before.last_cleanup >= METADATA_CACHE_TTL {
        &&& after.cache.dirs() == live_listings(before.cache.dirs(), now as int)
        &&& after.cache.files() == live_files(before.cache.files(), now as int)
        &&& after.last_cleanup == now
    } else {
        &&& after.cache.dirs() == before.cache.dirs()
        &&& after.cache.files() == before.cache.files()
        &&& after.last_cleanup == before.last_cleanup
    }
}

/// The step of a deletion.
pub open spec fn deletes(
    before: DokanyFs,
    after: DokanyFs,
    file_name: Seq<char>,
    deleted: Option<Result<(), Errno>>,
    step: ChangeStep,
) -> bool {
    let path = remote_path(file_name);
    match deleted {
        None => (step matches ChangeStep::Delete(p) && p@ == path) && after.same_cache(&before),
        Some(Err(e)) => step == ChangeStep::Done(Err(nt_status(Some(e)))) && after.same_cache(
            &before,
        ),
        Some(Ok(_)) => step == ChangeStep::Done(Ok(())) && after.forgot(
            &before,
            path,
            parent_and_name(path).0,
        ),
    }
}

/// The step of removing a file, or a directory: what is not one of that kind
/// stays.
pub open spec fn removed(
    before: DokanyFs,
    after: DokanyFs,
    file_name: Seq<char>,
    directory: bool,
    looked: Result<bool, Errno>,
    deleted: Option<Result<(), Errno>>,
    step: ChangeStep,
) -> bool {
    match looked {
        Err(e) => step == ChangeStep::Done(Err(nt_status(Some(e)))) && after.same_cache(&before),
        Ok(is_dir) => if is_dir != directory {
            step == ChangeStep::Done(
                Err(
                    if directory {
                        STATUS_NOT_A_DIRECTORY
                    } else {
                        STATUS_ACCESS_DENIED
                    },
                ),
            ) && after.same_cache(&before)
        } else {
            deletes(before, after, file_name, deleted, step)
        },
    }
}

/// A write on the contents of a file; one of no bytes does nothing.
pub open spec fn applied(content: Seq<u8>, b: BufferView) -> Seq<u8> {
    if b.data.len() == 0 {
        content
    } else {
        spliced(content, b.offset as int, b.data)
    }
}

/// Writes on the contents of a file, one after another.
pub open spec fn applied_all(content: Seq<u8>, writes: Seq<BufferView>) -> Seq<u8>
    decreases writes.len(),
{
    if writes.len() == 0 {
        content
    } else {
        applied(applied_all(content, writes.drop_last()), writes.last())
    }
}

/// What was collected, on the contents of a file.
pub open spec fn applied_rest(content: Seq<u8>, held: Option<BufferView>) -> Seq<u8> {
    match held {
        Some(b) => applied(content, b),
        None => content,
    }
}

/// Collecting writes changes nothing but their number: the writes that are sent,
/// carried out in the order in which they are sent, and then what stays
/// collected, give the file the contents that what was collected before and then
/// the new write would have given it.
pub proof fn law_collecting_preserves_writes(
    content: Seq<u8>,
    held: Option<BufferView>,
    offset: nat,
    data: Seq<u8>,
)
    ensures
        applied_rest(
            applied_all(content, sent(held, offset, data)),
            left(held, offset, data),
        ) == applied(applied_rest(content, held), BufferView { offset, data }),
{
    reveal_with_fuel(applied_all, 4);
    let (gone, kept) = collected(held, offset, data);
    match held {
        Some(b) => {
            if offset == b.offset + b.data.len() {
                law_adjacent_writes(content, b.offset, b.data, data);
                assert(b.data + Seq::<u8>::empty() =~= b.data);
                if b.data.len() == 0 {
                    assert(b.data + data =~= data);
                }
                if data.len() == 0 {
                    assert(b.data + data =~= b.data);
                }
                assert(seq![kept].drop_last() =~= Seq::<BufferView>::empty());
                assert(gone.push(kept) =~= seq![kept]);
            } else {
                assert(seq![b].drop_last() =~= Seq::<BufferView>::empty());
                assert(gone.push(kept).drop_last() =~= seq![b]);
            }
        },
        None => {
            assert(gone.push(kept) =~= seq![kept]);
            assert(seq![kept].drop_last() =~= Seq::<BufferView>::empty());
        },
    }
}

/// At most as many writes as allowed stay under way, each write that is under
/// way is either waited for or stays, and the order is kept.
pub proof fn law_writes_under_way(handles: Seq<u64>)
    ensures
        waited(handles) + unwaited(handles) == handles,
        unwaited(handles).len() <= MAX_CONCURRENT,
        unwaited(handles).len() <= 8,
        handles.len() <= 8 ==> waited(handles).len() == 0,
        handles.len() > 8 ==> unwaited(handles).len() == 4,
{
    assert(waited(handles) + unwaited(handles) =~= handles);
}

/// The buffer holds a byte for position `p`.
pub open spec fn covers(b: BufferView, p: int) -> bool {
    b.offset <= p < b.offset + b.data.len()
}

/// The bytes that the buffers put at position `p`, one after another.
pub open spec fn put_at(buffers: Seq<BufferView>, p: int) -> Seq<u8>
    decreases buffers.len(),
{
    if buffers.len() == 0 {
        Seq::empty()
    } else {
        let before = put_at(buffers.drop_last(), p);
        let b = buffers.last();
        if covers(b, p) {
            before.push(b.data[p - b.offset])
        } else {
            before
        }
    }
}

/// No two of the buffers hold a byte for the same position.
pub open spec fn disjoint(buffers: Seq<BufferView>) -> bool {
    forall|i: int, j: int, p: int|
        0 <= i < j < buffers.len() ==> !(#[trigger] covers(buffers[i], p) && #[trigger] covers(
            buffers[j],
            p,
        ))
}

/// What two lists of buffers put at a position, one after the other.
proof fn lemma_put_append(a: Seq<BufferView>, b: Seq<BufferView>, p: int)
    ensures
        put_at(a + b, p) == put_at(a, p) + put_at(b, p),
    decreases b.len(),
{
    if b.len() == 0 {
        assert(a + b =~= a);
        assert(put_at(a, p) + put_at(b, p) =~= put_at(a, p));
    } else {
        lemma_put_append(a, b.drop_last(), p);
        assert((a + b).drop_last() =~= a + b.drop_last());
        assert((a + b).last() == b.last());
        assert(put_at(a + b, p) =~= put_at(a, p) + put_at(b, p));
    }
}

/// What one buffer puts at a position.
proof fn lemma_put_one(b: BufferView, p: int)
    ensures
        put_at(seq![b], p) == (if covers(b, p) {
            seq![b.data[p - b.offset]]
        } else {
            Seq::empty()
        }),
{
    reveal_with_fuel(put_at, 2);
    assert(seq![b].drop_last() =~= Seq::<BufferView>::empty());
    assert(put_at(seq![b], p) =~= (if covers(b, p) {
        seq![b.data[p - b.offset]]
    } else {
        Seq::empty()
    }));
}

/// Taking one write in leaves what is put at a position as it would have been,
/// when what is collected counts as the last to be put.
proof fn lemma_put_step(held: Option<BufferView>, w: BufferView, p: int)
    ensures
        put_at(sent(held, w.offset, w.data) + held_of(left(held, w.offset, w.data)), p) == put_at(
            held_of(held),
            p,
        ) + put_at(seq![w], p),
{
    let (gone, kept) = collected(held, w.offset, w.data);
    let sent_now = sent(held, w.offset, w.data);
    let rest = held_of(left(held, w.offset, w.data));
    assert(sent_now + rest =~= gone.push(kept));
    lemma_put_one(w, p);
    match held {
        Some(b) => {
            lemma_put_one(b, p);
            if w.offset == b.offset + b.data.len() {
                assert(gone.push(kept) =~= seq![kept]);
                lemma_put_one(kept, p);
                assert(put_at(seq![kept], p) =~= put_at(seq![b], p) + put_at(seq![w], p));
            } else {
                assert(gone.push(kept) =~= seq![b] + seq![w]);
                lemma_put_append(seq![b], seq![w], p);
            }
        },
        None => {
            assert(gone.push(kept) =~= seq![w]);
            assert(put_at(Seq::<BufferView>::empty(), p) + put_at(seq![w], p) =~= put_at(
                seq![w],
                p,
            ));
        },
    }
}

/// What was sent and is collected puts at a position what the writes would have
/// put there.
proof fn lemma_put_series(first: nat, writes: Seq<BufferView>, p: int)
    ensures
        ({
            let s = with_writes(unwritten(first), writes);
            put_at(s.sent + held_of(s.buffer), p) == put_at(writes, p)
        }),
    decreases writes.len(),
{
    let s = with_writes(unwritten(first), writes);
    if writes.len() == 0 {
        assert(s.sent + held_of(s.buffer) =~= Seq::<BufferView>::empty());
    } else {
        let head = writes.drop_last();
        let w = writes.last();
        let before = with_writes(unwritten(first), head);
        lemma_put_series(first, head, p);
        lemma_put_step(before.buffer, w, p);
        let gone = sent(before.buffer, w.offset, w.data);
        let rest = held_of(left(before.buffer, w.offset, w.data));
        assert(s.sent + held_of(s.buffer) =~= before.sent + (gone + rest));
        lemma_put_append(before.sent, gone + rest, p);
        lemma_put_append(before.sent, held_of(before.buffer), p);
        lemma_put_one(w, p);
        assert(put_at(writes, p) =~= put_at(head, p) + put_at(seq![w], p));
        assert(put_at(s.sent + held_of(s.buffer), p) =~= put_at(writes, p));
    }
}

/// The numbers under which writes were started, and those that were waited for or
/// are under way, are the same.
proof fn lemma_numbers_series(first: nat, writes: Seq<BufferView>)
    ensures
        ({
            let s = with_writes(unwritten(first), writes);
            s.next == first + s.sent.len() && s.waited + s.handles == numbers_from(
                first,
                s.sent.len(),
            )
        }),
    decreases writes.len(),
{
    let s = with_writes(unwritten(first), writes);
    if writes.len() == 0 {
        assert(s.waited + s.handles =~= numbers_from(first, 0));
    } else {
        let before = with_writes(unwritten(first), writes.drop_last());
        let w = writes.last();
        lemma_numbers_series(first, writes.drop_last());
        let gone = sent(before.buffer, w.offset, w.data);
        let under_way = before.handles + numbers_from(before.next, gone.len());
        law_writes_under_way(under_way);
        assert(s.waited + s.handles =~= before.waited + under_way);
        assert(before.waited + under_way =~= (before.waited + before.handles) + numbers_from(
            before.next,
            gone.len(),
        ));
        assert((before.waited + before.handles) + numbers_from(before.next, gone.len())
            =~= numbers_from(first, s.sent.len()));
    }
}

/// A buffer that covers a position puts something there.
proof fn lemma_put_some(buffers: Seq<BufferView>, i: int, p: int)
    requires
        0 <= i < buffers.len(),
        covers(buffers[i], p),
    ensures
        put_at(buffers, p).len() > 0,
    decreases buffers.len(),
{
    if i < buffers.len() - 1 {
        assert(buffers.drop_last()[i] == buffers[i]);
        lemma_put_some(buffers.drop_last(), i, p);
    }
}

/// Disjoint buffers put at most one byte at a position.
proof fn lemma_disjoint_once(buffers: Seq<BufferView>, p: int)
    requires
        disjoint(buffers),
    ensures
        put_at(buffers, p).len() <= 1,
        put_at(buffers, p).len() > 0 ==> exists|i: int|
            0 <= i < buffers.len() && #[trigger] covers(buffers[i], p),
    decreases buffers.len(),
{
    if buffers.len() > 0 {
        let head = buffers.drop_last();
        assert forall|i: int, j: int, q: int| 0 <= i < j < head.len() implies !(
        #[trigger] covers(head[i], q) && #[trigger] covers(head[j], q)) by {
            assert(head[i] == buffers[i] && head[j] == buffers[j]);
            assert(!(covers(buffers[i], q) && covers(buffers[j], q)));
        }
        lemma_disjoint_once(head, p);
        if put_at(head, p).len() > 0 {
            let i = choose|i: int| 0 <= i < head.len() && #[trigger] covers(head[i], p);
            assert(covers(buffers[i], p));
            assert(!(covers(buffers[i], p) && covers(buffers[buffers.len() - 1], p)));
        } else if covers(buffers.last(), p) {
            assert(covers(buffers[buffers.len() - 1], p));
        }
    }
}

/// Buffers that put at most one byte at every position are disjoint.
proof fn lemma_once_disjoint(buffers: Seq<BufferView>)
    requires
        forall|p: int| (#[trigger] put_at(buffers, p)).len() <= 1,
    ensures
        disjoint(buffers),
    decreases buffers.len(),
{
    assert forall|i: int, j: int, p: int| 0 <= i < j < buffers.len() implies !(
    #[trigger] covers(buffers[i], p) && #[trigger] covers(buffers[j], p)) by {
        if covers(buffers[i], p) && covers(buffers[j], p) {
            let upto = buffers.take(j + 1);
            assert(upto.drop_last() =~= buffers.take(j));
            assert(buffers.take(j)[i] == buffers[i]);
            lemma_put_some(buffers.take(j), i, p);
            assert(put_at(upto, p).len() >= 2);
            assert(upto + buffers.skip(j + 1) =~= buffers);
            lemma_put_append(upto, buffers.skip(j + 1), p);
            assert(put_at(buffers, p).len() <= 1);
        }
    }
}

/// Over a series of writes and the flush, every byte is sent once and at its
/// place: at each position the chunks that were sent put just the bytes that the
/// writes hold for it, in the order of the writes. Where the writes are disjoint,
/// so are the chunks. Every chunk that was sent was also waited for, once, and
/// nothing stays collected or under way.
pub proof fn law_flush_sends_all(first: nat, writes: Seq<BufferView>)
    ensures
        ({
            let s = flushed(with_writes(unwritten(first), writes));
            &&& forall|p: int| #[trigger] put_at(s.sent, p) == put_at(writes, p)
            &&& disjoint(writes) ==> disjoint(s.sent)
            &&& s.waited == numbers_from(first, s.sent.len())
            &&& s.buffer is None
            &&& s.handles.len() == 0
        }),
{
    let before = with_writes(unwritten(first), writes);
    let s = flushed(before);
    assert forall|p: int| #[trigger] put_at(s.sent, p) == put_at(writes, p) by {
        lemma_put_series(first, writes, p);
    }
    if disjoint(writes) {
        assert forall|p: int| (#[trigger] put_at(s.sent, p)).len() <= 1 by {
            lemma_disjoint_once(writes, p);
        }
        lemma_once_disjoint(s.sent);
    }
    lemma_numbers_series(first, writes);
    let gone = held_of(before.buffer);
    assert(s.waited =~= (before.waited + before.handles) + numbers_from(
        before.next,
        gone.len(),
    ));
    assert(s.waited =~= numbers_from(first, s.sent.len()));
}

/// The chunks of a series of writes and the flush, carried out in the order in
/// which they are sent, give a file the contents that the writes would have
/// given it.
pub proof fn law_flush_contents(first: nat, writes: Seq<BufferView>, content: Seq<u8>)
    ensures
        applied_all(content, flushed(with_writes(unwritten(first), writes)).sent) == applied_all(
            content,
            writes,
        ),
{
    lemma_contents_series(first, writes, content);
    let before = with_writes(unwritten(first), writes);
    match before.buffer {
        Some(b) => {
            assert((before.sent + seq![b]).drop_last() =~= before.sent);
            assert((before.sent + seq![b]).last() == b);
        },
        None => {
            assert(before.sent + held_of(before.buffer) =~= before.sent);
        },
    }
}

/// Two lists of buffers carried out one after the other.
proof fn lemma_applied_append(content: Seq<u8>, a: Seq<BufferView>, b: Seq<BufferView>)
    ensures
        applied_all(content, a + b) == applied_all(applied_all(content, a), b),
    decreases b.len(),
{
    if b.len() == 0 {
        assert(a + b =~= a);
    } else {
        lemma_applied_append(content, a, b.drop_last());
        assert((a + b).drop_last() =~= a + b.drop_last());
        assert((a + b).last() == b.last());
    }
}

/// What was sent and is collected gives a file the contents that the writes would
/// have given it.
proof fn lemma_contents_series(first: nat, writes: Seq<BufferView>, content: Seq<u8>)
    ensures
        ({
            let s = with_writes(unwritten(first), writes);
            applied_rest(applied_all(content, s.sent), s.buffer) == applied_all(content, writes)
        }),
    decreases writes.len(),
{
    if writes.len() > 0 {
        let before = with_writes(unwritten(first), writes.drop_last());
        let w = writes.last();
        lemma_contents_series(first, writes.drop_last(), content);
        let gone = sent(before.buffer, w.offset, w.data);
        lemma_applied_append(content, before.sent, gone);
        law_collecting_preserves_writes(
            applied_all(content, before.sent),
            before.buffer,
            w.offset,
            w.data,
        );
    }
}

/// The writes of all files once these were taken in, each of the file at its path.
pub open spec fn after_writes(
    v: PendingView,
    calls: Seq<(Seq<char>, BufferView)>,
) -> PendingView
    decreases calls.len(),
{
    if calls.len() == 0 {
        v
    } else {
        after_write(after_writes(v, calls.drop_last()), calls.last().0, calls.last().1)
    }
}

/// Those of the writes that are of the file at `path`.
pub open spec fn writes_to(calls: Seq<(Seq<char>, BufferView)>, path: Seq<char>) -> Seq<BufferView>
    decreases calls.len(),
{
    if calls.len() == 0 {
        Seq::empty()
    } else {
        let before = writes_to(calls.drop_last(), path);
        if calls.last().0 == path {
            before.push(calls.last().1)
        } else {
            before
        }
    }
}

/// The chunks of the file at `path` that were sent as the writes were taken in.
pub open spec fn sent_to(
    v: PendingView,
    calls: Seq<(Seq<char>, BufferView)>,
    path: Seq<char>,
) -> Seq<BufferView>
    decreases calls.len(),
{
    if calls.len() == 0 {
        Seq::empty()
    } else {
        let before = sent_to(v, calls.drop_last(), path);
        if calls.last().0 == path {
            before + taking_in(after_writes(v, calls.drop_last()), path, calls.last().1).sent
        } else {
            before
        }
    }
}

/// The numbers under which those chunks were sent.
pub open spec fn numbers_to(
    v: PendingView,
    calls: Seq<(Seq<char>, BufferView)>,
    path: Seq<char>,
) -> Seq<u64>
    decreases calls.len(),
{
    if calls.len() == 0 {
        Seq::empty()
    } else {
        let before = numbers_to(v, calls.drop_last(), path);
        if calls.last().0 == path {
            let mid = after_writes(v, calls.drop_last());
            before + numbers_from(mid.next, taking_in(mid, path, calls.last().1).sent.len())
        } else {
            before
        }
    }
}

/// The numbers of the chunks that were waited for as the writes were taken in.
pub open spec fn waited_on(
    v: PendingView,
    calls: Seq<(Seq<char>, BufferView)>,
    path: Seq<char>,
) -> Seq<u64>
    decreases calls.len(),
{
    if calls.len() == 0 {
        Seq::empty()
    } else {
        let before = waited_on(v, calls.drop_last(), path);
        if calls.last().0 == path {
            before + taking_in(after_writes(v, calls.drop_last()), path, calls.last().1).waited
        } else {
            before
        }
    }
}

/// Among the writes of other files, those of the file at `path` go on as if they
/// were alone; only the numbers come later.
proof fn lemma_alone(
    v: PendingView,
    calls: Seq<(Seq<char>, BufferView)>,
    path: Seq<char>,
)
    requires
        pending_on(v, path) == no_writes(),
    ensures
        ({
            let alone = with_writes(unwritten(0), writes_to(calls, path));
            let left_over = pending_on(after_writes(v, calls), path);
            &&& sent_to(v, calls, path) == alone.sent
            &&& left_over.buffer == alone.buffer
            &&& waited_on(v, calls, path) + left_over.handles == numbers_to(v, calls, path)
        }),
    decreases calls.len(),
{
    if calls.len() == 0 {
        assert(waited_on(v, calls, path) + no_writes().handles =~= numbers_to(v, calls, path));
    } else {
        let head = calls.drop_last();
        let (at, w) = calls.last();
        lemma_alone(v, head, path);
        if at == path {
            let mid = after_writes(v, head);
            let before = pending_on(mid, path);
            let gone = sent(before.buffer, w.offset, w.data);
            let under_way = before.handles + numbers_from(mid.next, gone.len());
            law_writes_under_way(under_way);
            assert(writes_to(calls, path).drop_last() =~= writes_to(head, path));
            assert(Seq::<BufferView>::empty() + gone =~= gone);
            assert(Seq::<u64>::empty() + waited(under_way) =~= waited(under_way));
            assert(waited_on(v, calls, path) + unwaited(under_way) =~= waited_on(v, head, path)
                + under_way);
            assert(waited_on(v, head, path) + under_way =~= (waited_on(v, head, path)
                + before.handles) + numbers_from(mid.next, gone.len()));
        }
    }
}

/// Writes of other files leave what is pending of the file at `path` as it is.
proof fn lemma_untouched(
    v: PendingView,
    calls: Seq<(Seq<char>, BufferView)>,
    path: Seq<char>,
)
    requires
        writes_to(calls, path).len() == 0,
    ensures
        pending_on(after_writes(v, calls), path) == pending_on(v, path),
        after_writes(v, calls).writes.contains_key(path) == v.writes.contains_key(path),
    decreases calls.len(),
{
    if calls.len() > 0 {
        lemma_untouched(v, calls.drop_last(), path);
    }
}

/// A flush, after writes of any files, where nothing was pending of the file at
/// `path` before. At each position of the file the chunks that were sent for it
/// put just the bytes that its writes hold there, in the order of the writes, and
/// they give the file the contents that the writes would have given it. The flush
/// waits for just those chunks that were not waited for before, in order, so each
/// chunk is waited for once. Nothing is pending of the file any more, and what is
/// pending of the other files stays as it was; what was pending of a file that
/// was not written is so still.
pub proof fn law_flush(
    v: PendingView,
    calls: Seq<(Seq<char>, BufferView)>,
    path: Seq<char>,
    other: Seq<char>,
    content: Seq<u8>,
)
    requires
        pending_on(v, path) == no_writes(),
        other != path,
    ensures
        ({
            let mid = after_writes(v, calls);
            let flush = draining(mid, path);
            let end = after_drain(mid, path);
            let chunks = sent_to(v, calls, path) + flush.sent;
            let numbers = numbers_to(v, calls, path) + numbers_from(mid.next, flush.sent.len());
            let mine = writes_to(calls, path);
            &&& forall|p: int| #[trigger] put_at(chunks, p) == put_at(mine, p)
            &&& disjoint(mine) ==> disjoint(chunks)
            &&& applied_all(content, chunks) == applied_all(content, mine)
            &&& chunks.len() == numbers.len()
            &&& waited_on(v, calls, path) + flush.waited == numbers
            &&& flush.waited == numbers.skip(waited_on(v, calls, path).len() as int)
            &&& !end.writes.contains_key(path)
            &&& end.writes.contains_key(other) == mid.writes.contains_key(other)
            &&& pending_on(end, other) == pending_on(mid, other)
            &&& writes_to(calls, other).len() == 0 ==> pending_on(end, other) == pending_on(
                v,
                other,
            )
        }),
{
    let mid = after_writes(v, calls);
    let mine = writes_to(calls, path);
    let alone = with_writes(unwritten(0), mine);
    let before = pending_on(mid, path);
    let gone = held_of(before.buffer);
    let flush = draining(mid, path);
    lemma_alone(v, calls, path);
    lemma_numbers_count(v, calls, path);
    law_flush_sends_all(0, mine);
    law_flush_contents(0, mine, content);
    assert(Seq::<BufferView>::empty() + gone =~= gone);
    assert(flush.sent == gone);
    assert(sent_to(v, calls, path) + flush.sent == flushed(alone).sent);
    let numbers = numbers_to(v, calls, path) + numbers_from(mid.next, gone.len());
    let done = waited_on(v, calls, path);
    assert(flush.waited =~= before.handles + numbers_from(mid.next, gone.len()));
    assert(done + flush.waited =~= (done + before.handles) + numbers_from(mid.next, gone.len()));
    assert((done + flush.waited).skip(done.len() as int) =~= flush.waited);
    if writes_to(calls, other).len() == 0 {
        lemma_untouched(v, calls, other);
    }
}

/// There is one number for each chunk.
proof fn lemma_numbers_count(
    v: PendingView,
    calls: Seq<(Seq<char>, BufferView)>,
    path: Seq<char>,
)
    ensures
        numbers_to(v, calls, path).len() == sent_to(v, calls, path).len(),
    decreases calls.len(),
{
    if calls.len() > 0 {
        lemma_numbers_count(v, calls.drop_last(), path);
    }
}

/// The entry that is found has the name that was looked for and stands in the
/// listing, with none of that name in front of it; none is found only where no
/// entry has the name.
pub proof fn law_entry_named(entries: Seq<FileEntry>, name: Seq<char>)
    ensures
        match entry_named(entries, name) {
            Some(e) => exists|i: int|
                0 <= i < entries.len() && #[trigger] entries[i] == e && e.name@ == name && forall|
                    j: int,
                |
                    0 <= j < i ==> (#[trigger] entries[j]).name@ != name,
            None => forall|i: int| 0 <= i < entries.len() ==> (#[trigger] entries[i]).name@ != name,
        },
        entry_named(entries, name) matches Some(e) ==> entries.contains(e),
    decreases entries.len(),
{
    if entries.len() > 0 {
        let head = entries.drop_last();
        law_entry_named(head, name);
        match entry_named(head, name) {
            Some(e) => {
                let i = choose|i: int|
                    0 <= i < head.len() && #[trigger] head[i] == e && e.name@ == name && forall|
                        j: int,
                    |
                        0 <= j < i ==> (#[trigger] head[j]).name@ != name;
                assert(entries[i] == e);
                assert forall|j: int| 0 <= j < i implies (#[trigger] entries[j]).name@ != name by {
                    assert(head[j] == entries[j]);
                }
            },
            None => {
                assert forall|j: int| 0 <= j < head.len() implies (#[trigger] entries[j]).name@
                    != name by {
                    assert(head[j] == entries[j]);
                }
                assert(entries[entries.len() - 1] == entries.last());
            },
        }
    }
}

/// Success is told of no condition, and each of the three conditions that have a
/// status of their own is told by it alone.
pub proof fn law_nt_status(err: Option<Errno>)
    ensures
        err is None <==> nt_status(err) == 0,
        err == Some(Errno::NoEnt) <==> nt_status(err) == -1_073_741_772,
        err == Some(Errno::NotConn) <==> nt_status(err) == -1_073_741_667,
        err == Some(Errno::Io) <==> nt_status(err) == -1_073_741_435,
        nt_status(err) == 0 || nt_status(err) == -1_073_741_772 || nt_status(err) == -1_073_741_667
            || nt_status(err) == -1_073_741_435 || nt_status(err) == -1_073_741_790,
{
}

/// A search lists the root or what the path names below it.
pub proof fn law_search_path(path: Seq<char>)
    ensures
        search_path(path).len() == remote_path(path).len() + 1,
        search_path(path)[0] == '/',
        search_path(path).skip(1) == remote_path(path),
        !search_path(path).contains('\\'),
{
    reveal_strlit("/");
    assert(search_path(path).skip(1) =~= remote_path(path));
    crate::paths::law_remote_path(path);
    if search_path(path).contains('\\') {
        let k = choose|k: int|
            0 <= k < search_path(path).len() && search_path(path)[k] == '\\';
        assert(remote_path(path)[k - 1] == '\\');
    }
}

/// A path and its other form differ in one leading slash, and each is the other
/// form of the other.
pub proof fn law_other_form(path: Seq<char>)
    ensures
        path.len() == 0 ==> other_form(path) is None,
        other_form(seq!['/']) is None,
        path.len() > 0 && path[0] != '/' ==> other_form(path) == Some(seq!['/'] + path) && other_form(
            seq!['/'] + path,
        ) == Some(path),
{
    reveal_strlit("/");
    assert("/"@ =~= seq!['/']);
    assert((seq!['/'] + path).drop_first() =~= path);
}

/// After a change, nothing of the path is found in the caches in either form, and
/// the chunks of other paths are as they were.
pub proof fn law_forgotten(
    files: Map<Seq<char>, Map<u64, ChunkView>>,
    dirs: Map<Seq<char>, ListingView>,
    path: Seq<char>,
    other: Seq<char>,
)
    ensures
        !files_without(files, path).contains_key(path),
        !dirs_without(dirs, path).contains_key(path),
        other_form(path) matches Some(o) ==> !files_without(files, path).contains_key(o)
            && !dirs_without(dirs, path).contains_key(o),
        other != path && other_form(path) != Some(other) ==> (files_without(
            files,
            path,
        ).contains_key(other) <==> files.contains_key(other)),
        other != path && other_form(path) != Some(other) && files.contains_key(other)
            ==> files_without(files, path)[other] == files[other],
        dirs_without(dirs, path).contains_key(other) ==> dirs.contains_key(other) && dirs_without(
            dirs,
            path,
        )[other] == dirs[other],
{
}

/// Where the drive is mounted begins with what was asked for, and has a backslash
/// more just where that ends in a colon.
pub proof fn law_mount_text(mountpoint: Seq<char>)
    ensures
        mount_text(mountpoint).take(mountpoint.len() as int) == mountpoint,
        mountpoint.len() > 0 && mountpoint.last() == ':' ==> mount_text(mountpoint)
            == mountpoint.push('\\'),
        !(mountpoint.len() > 0 && mountpoint.last() == ':') ==> mount_text(mountpoint)
            == mountpoint,
{
    reveal_strlit("\\");
    assert("\\"@ =~= seq!['\\']);
    assert(mountpoint + seq!['\\'] =~= mountpoint.push('\\'));
    assert(mount_text(mountpoint).take(mountpoint.len() as int) =~= mountpoint);
}

/// An entry is found as it is listed: by its name, with its size and times, and
/// with the attribute of its sort.
pub proof fn law_found_as(d: FindData, e: FileEntry)
    requires
        found_as(d, e),
    ensures
        wide_units(e.name@) == Some(d.file_name@),
        d.file_size == e.size,
        d.creation_time == e.ctime,
        d.last_access_time == e.mtime,
        d.last_write_time == e.mtime,
        d.attributes == 0x10 <==> e.is_dir,
        d.attributes == 0x80 <==> !e.is_dir,
{
}

/// What has to be sent when a write comes in, and what stays collected, hold the
/// bytes that were collected and then those of the write: none is lost, added or
/// put elsewhere. Less than four mebibytes stay collected.
pub proof fn law_collected(held: Option<BufferView>, offset: nat, data: Seq<u8>)
    ensures
        left(held, offset, data) matches Some(b) ==> b.data.len() < 4_194_304,
        held is None && data.len() < 4_194_304 ==> sent(held, offset, data).len() == 0 && left(
            held,
            offset,
            data,
        ) == Some(BufferView { offset, data }),
        held is None && data.len() >= 4_194_304 ==> sent(held, offset, data) == seq![
            BufferView { offset, data },
        ] && left(held, offset, data) is None,
        held matches Some(b) ==> (offset != b.offset + b.data.len() ==> sent(
            held,
            offset,
            data,
        ).len() > 0 && sent(held, offset, data)[0] == b),
        held matches Some(b) ==> (offset == b.offset + b.data.len() && b.data.len() + data.len()
            < 4_194_304 ==> sent(held, offset, data).len() == 0 && left(held, offset, data) == Some(
            BufferView { offset: b.offset, data: b.data + data },
        )),
        held matches Some(b) ==> (offset == b.offset + b.data.len() && b.data.len() + data.len()
            >= 4_194_304 ==> left(held, offset, data) is None && sent(held, offset, data) == seq![
            BufferView { offset: b.offset, data: b.data + data },
        ]),
{
    assert(sent(None, offset, data) =~= (if data.len() >= 4_194_304 {
        seq![BufferView { offset, data }]
    } else {
        Seq::empty()
    }));
    if let Some(b) = held {
        if offset == b.offset + b.data.len() && b.data.len() + data.len() >= 4_194_304 {
            assert(sent(held, offset, data) =~= seq![
                BufferView { offset: b.offset, data: b.data + data },
            ]);
        }
    }
}

} // verus!
