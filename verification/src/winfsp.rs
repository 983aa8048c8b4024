//! The file system as a volume on Windows: file times, what is told of files,
//! and what the volume's operations ask of the server and answer.

use std::collections::HashMap;

use vstd::prelude::*;
use vstd::string::*;

use crate::bytes::{copy_of, slice, slice_of};
use crate::clock::Clock;
use crate::dokany::NtStatus;
use crate::http::{Body, BodyView, Method, Request, RequestView};
use crate::paths::{bare_path, normalize_path};
use crate::remote::{join_url, joined_url, FileInfo};
use crate::table::PathTable;
use crate::text::{
    after_last, chars_of, has_prefix, owned, same_text, split_char, starts_with, texts,
};
use crate::wide::{units_le, units_ordered, utf16, wide, wide_units};

verus! {

broadcast use vstd::std_specs::hash::group_hash_axioms;

/// The number of the root.
pub const WINFSP_ROOT_ID: u64 = 1;

pub const FILE_ATTRIBUTE_DIRECTORY: u32 = 0x10;

pub const FILE_ATTRIBUTE_NORMAL: u32 = 0x80;

pub const FILE_WRITE_DATA: u32 = 0x02;

pub const FILE_APPEND_DATA: u32 = 0x04;

pub const GENERIC_WRITE: u32 = 0x4000_0000;

pub const DELETE: u32 = 0x0001_0000;

/// The size of the volume, in bytes: one terabyte.
pub const VOLUME_SIZE: u64 = 1_099_511_627_776;

/// There is no such file.
pub const STATUS_NO_SUCH_FILE: NtStatus = 2;

/// Access is denied.
pub const STATUS_ACCESS_DENIED: NtStatus = 5;

/// The device, which is the server, failed.
pub const STATUS_DEVICE_IO_ERROR: NtStatus = 31;

/// It is not supported.
pub const STATUS_UNSUPPORTED: NtStatus = -1_073_741_822;

/// The time `secs` seconds after the epoch in steps of a hundred nanoseconds
/// since the beginning of the year 1601.
pub open spec fn filetime(secs: nat) -> nat {
    secs * 10_000_000 + 116_444_736_000_000_000
}

/// The time `unix_secs` seconds after the epoch as a file time.
pub fn unix_to_filetime(unix_secs: u64) -> (t: u64)
    requires
        filetime(unix_secs as nat) <= u64::MAX,
    ensures
        t == filetime(unix_secs as nat),
        t >= 116_444_736_000_000_000,
        (t - 116_444_736_000_000_000) / 10_000_000 == unix_secs,
        t % 10_000_000 == 0,
{
    unix_secs * 10_000_000 + 116_444_736_000_000_000
}

/// The whole seconds in a reading of the wall clock, none before the epoch.
pub open spec fn wall_seconds(nanos: i64) -> nat {
    if nanos < 0 {
        0
    } else {
        nanos as nat / 1_000_000_000
    }
}

/// A reading of the wall clock as a file time.
pub fn filetime_at(nanos: i64) -> (t: u64)
    ensures
        t == filetime(wall_seconds(nanos)),
        nanos < 0 ==> t == 116_444_736_000_000_000,
        nanos >= 0 ==> t - 116_444_736_000_000_000 <= nanos / 100 < t - 116_444_736_000_000_000
            + 10_000_000,
        t % 10_000_000 == 0,
{
    let secs: u64 = if nanos < 0 {
        0
    } else {
        nanos as u64 / 1_000_000_000
    };
    unix_to_filetime(secs)
}

/// The current time as a file time.
pub fn current_filetime() -> (t: u64)
    ensures
        exists|nanos: i64| t == filetime(#[trigger] wall_seconds(nanos)),
{
    let reading = Clock::start().read();
    filetime_at(reading.wall)
}

/// What is told of a file.
#[derive(Debug, Clone, Copy, PartialEq, Eq, Structural)]
pub struct WinFileInfo {
    pub file_attributes: u32,
    pub creation_time: u64,
    pub last_access_time: u64,
    pub last_write_time: u64,
    pub change_time: u64,
    pub allocation_size: u64,
    pub file_size: u64,
    pub hard_links: u32,
    pub reparse_tag: u32,
    pub index_number: u64,
    pub ea_size: u32,
}

/// The size and the time of the file can be told.
pub open spec fn tellable(f: FileInfo) -> bool {
    f.size + 4095 <= u64::MAX && filetime(f.timestamp as nat) <= u64::MAX
}

/// Whether a size and a time can be told of a file.
pub fn is_tellable(size: u64, timestamp: u64) -> (r: bool)
    ensures
        r == (size + 4095 <= u64::MAX && filetime(timestamp as nat) <= u64::MAX),
        r <==> size <= 0xffff_ffff_ffff_f000 && timestamp <= 1_833_029_933_770,
{
    size as u128 + 4095 <= u64::MAX as u128 && timestamp as u128 * 10_000_000
        + 116_444_736_000_000_000 <= u64::MAX as u128
}

/// The bytes that blocks of 4096 bytes take for `size` bytes.
pub open spec fn allocated(size: nat) -> nat {
    (size + 4095) / 4096 * 4096
}

/// What is told of a file with this number.
pub open spec fn told(ino: u64, f: FileInfo) -> WinFileInfo {
    let time = filetime(f.timestamp as nat) as u64;
    WinFileInfo {
        file_attributes: if f.file_type@ == "dir"@ {
            FILE_ATTRIBUTE_DIRECTORY
        } else {
            FILE_ATTRIBUTE_NORMAL
        },
        creation_time: time,
        last_access_time: time,
        last_write_time: time,
        change_time: time,
        allocation_size: allocated(f.size as nat) as u64,
        file_size: f.size,
        hard_links: 1,
        reparse_tag: 0,
        index_number: ino,
        ea_size: 0,
    }
}

/// What is told of the root at a file time.
pub open spec fn told_of_root(time: u64) -> WinFileInfo {
    WinFileInfo {
        file_attributes: FILE_ATTRIBUTE_DIRECTORY,
        creation_time: time,
        last_access_time: time,
        last_write_time: time,
        change_time: time,
        allocation_size: 0,
        file_size: 0,
        hard_links: 1,
        reparse_tag: 0,
        index_number: WINFSP_ROOT_ID,
        ea_size: 0,
    }
}

/// What is told of a file with this number.
pub fn create_file_info(ino: u64, file_data: &FileInfo) -> (r: WinFileInfo)
    requires
        tellable(*file_data),
    ensures
        r == told(ino, *file_data),
        r.file_size == file_data.size,
        r.allocation_size % 4096 == 0,
        file_data.size <= r.allocation_size < file_data.size + 4096,
        r.file_attributes == 0x10 <==> file_data.file_type@ == "dir"@,
        r.file_attributes == 0x80 <==> file_data.file_type@ != "dir"@,
        r.index_number == ino,
        r.hard_links == 1,
        r.reparse_tag == 0,
        r.ea_size == 0,
        r.creation_time == 116_444_736_000_000_000 + 10_000_000 * file_data.timestamp,
        r.last_access_time == r.creation_time,
        r.last_write_time == r.creation_time,
        r.change_time == r.creation_time,
{
    let time: u64 = unix_to_filetime(file_data.timestamp);
    let is_dir = same_text(file_data.file_type.as_str(), "dir");
    WinFileInfo {
        file_attributes: if is_dir {
            FILE_ATTRIBUTE_DIRECTORY
        } else {
            FILE_ATTRIBUTE_NORMAL
        },
        creation_time: time,
        last_access_time: time,
        last_write_time: time,
        change_time: time,
        allocation_size: (file_data.size + 4095) / 4096 * 4096,
        file_size: file_data.size,
        hard_links: 1,
        reparse_tag: 0,
        index_number: ino,
        ea_size: 0,
    }
}

/// What is told of the root at a file time.
pub fn root_file_info_at(time: u64) -> (r: WinFileInfo)
    ensures
        r == told_of_root(time),
        r.file_attributes == 0x10,
        r.file_size == 0,
        r.allocation_size == 0,
        r.index_number == 1,
        r.hard_links == 1,
        r.creation_time == time && r.last_access_time == time && r.last_write_time == time && r.change_time
            == time,
{
    WinFileInfo {
        file_attributes: FILE_ATTRIBUTE_DIRECTORY,
        creation_time: time,
        last_access_time: time,
        last_write_time: time,
        change_time: time,
        allocation_size: 0,
        file_size: 0,
        hard_links: 1,
        reparse_tag: 0,
        index_number: WINFSP_ROOT_ID,
        ea_size: 0,
    }
}

/// What is told of the root now.
pub fn create_root_file_info() -> (r: WinFileInfo)
    ensures
        exists|time: u64| r == #[trigger] told_of_root(time),
{
    let time: u64 = current_filetime();
    root_file_info_at(time)
}

/// A text in lower case.
pub uninterp spec fn lowered(text: Seq<char>) -> Seq<char>;

/// `str::to_lowercase`: the lower-case form that Unicode gives a text depends on
/// the text alone.
#[verifier::external_body]
fn lowercase(text: &str) -> (r: String)
    ensures
        r@ == lowered(text@),
{
    text.to_lowercase()
}

/// A name, in lower case, of a file that the system looks for everywhere.
pub open spec fn system_name(name: Seq<char>) -> bool {
    ||| name == "autorun.inf"@
    ||| name == "desktop.ini"@
    ||| name == "folder.jpg"@
    ||| name == "folder.gif"@
    ||| name == "front.jpg"@
    ||| name == "thumbs.db"@
    ||| name == "target.lnk"@
    ||| name == "iconcache.db"@
    ||| has_prefix(name, "albumart"@)
}

/// Whether a name, in lower case, is that of a file that the system looks for
/// everywhere.
pub fn is_system_name(name: &str) -> (r: bool)
    ensures
        r == system_name(name@),
        !r ==> name@ != "autorun.inf"@ && name@ != "desktop.ini"@ && name@ != "folder.jpg"@ && name@
            != "folder.gif"@ && name@ != "front.jpg"@ && name@ != "thumbs.db"@ && name@ != "target.lnk"@
            && name@ != "iconcache.db"@,
        r ==> name@ == "autorun.inf"@ || name@ == "desktop.ini"@ || name@ == "folder.jpg"@ || name@
            == "folder.gif"@ || name@ == "front.jpg"@ || name@ == "thumbs.db"@ || name@ == "target.lnk"@
            || name@ == "iconcache.db"@ || has_prefix(name@, "albumart"@),
        has_prefix(name@, "albumart"@) ==> r,
{
    same_text(name, "autorun.inf") || same_text(name, "desktop.ini") || same_text(
        name,
        "folder.jpg",
    ) || same_text(name, "folder.gif") || same_text(name, "front.jpg") || same_text(
        name,
        "thumbs.db",
    ) || same_text(name, "target.lnk") || same_text(name, "iconcache.db") || starts_with(
        name,
        "albumart",
    )
}

/// What stands behind the last slash of a path.
fn last_piece(path: &str) -> (r: String)
    ensures
        r@ == after_last(path@, '/'),
{
    let pieces = split_char(path, '/');
    proof {
        crate::paths::lemma_split_some(path@, '/');
    }
    assert(texts(pieces@).len() == pieces@.len());
    let n: usize = pieces.len();
    assert(texts(pieces@).last() == pieces@[n - 1]@);
    pieces[n - 1].clone()
}

/// Whether a path names a file that the system looks for everywhere.
pub fn is_system_file(path: &str) -> (r: bool)
    ensures
        r == system_name(lowered(after_last(path@, '/'))),
{
    let name = last_piece(path);
    let lower = lowercase(name.as_str());
    is_system_name(lower.as_str())
}

/// `a` does not come behind `b` in the order of their characters.
pub open spec fn text_le(a: Seq<char>, b: Seq<char>) -> bool
    decreases a.len(),
{
    if a.len() == 0 {
        true
    } else if b.len() == 0 {
        false
    } else if a[0] == b[0] {
        text_le(a.drop_first(), b.drop_first())
    } else {
        (a[0] as int) < (b[0] as int)
    }
}

/// The number of a character.
fn code_of(c: char) -> (n: u32)
    ensures
        n == c as int,
{
    c as u32
}

/// Whether `a` does not come behind `b` in the order of their characters.
pub fn text_ordered(a: &str, b: &str) -> (r: bool)
    ensures
        r == text_le(a@, b@),
        r || text_le(b@, a@),
        a@ == b@ ==> r,
{
    proof {
        lemma_text_le_total(a@, b@);
        law_text_order(a@, b@);
    }
    let x = chars_of(a);
    let y = chars_of(b);
    let mut i: usize = 0;
    assert(x@.skip(0) =~= x@);
    assert(y@.skip(0) =~= y@);
    while i < x.len() && i < y.len()
        invariant
            x@ == a@,
            y@ == b@,
            i <= x@.len(),
            i <= y@.len(),
            text_le(x@, y@) == text_le(x@.skip(i as int), y@.skip(i as int)),
        decreases x@.len() - i,
    {
        let cx: char = x[i];
        let cy: char = y[i];
        if cx != cy {
            proof {
                lemma_text_le_total(a@, b@);
            }
            return code_of(cx) < code_of(cy);
        }
        assert(x@.skip(i as int).drop_first() =~= x@.skip(i as int + 1));
        assert(y@.skip(i as int).drop_first() =~= y@.skip(i as int + 1));
        i = i + 1;
    }
    i == x.len()
}

/// How many of the files, from the beginning, come before a name or stand at it.
pub open spec fn place_for(files: Seq<FileInfo>, name: Seq<char>) -> int
    decreases files.len(),
{
    if files.len() == 0 {
        0
    } else if text_le(files.last().name@, name) {
        files.len() as int
    } else {
        place_for(files.drop_last(), name)
    }
}

/// The files in the order of their names; files of the same name stay in the
/// order in which they were.
pub open spec fn sorted(files: Seq<FileInfo>) -> Seq<FileInfo>
    decreases files.len(),
{
    if files.len() == 0 {
        Seq::empty()
    } else {
        let before = sorted(files.drop_last());
        before.insert(place_for(before, files.last().name@), files.last())
    }
}

/// A place lies within the files.
proof fn lemma_place(files: Seq<FileInfo>, name: Seq<char>)
    ensures
        0 <= place_for(files, name) <= files.len(),
    decreases files.len(),
{
    if files.len() > 0 && !text_le(files.last().name@, name) {
        lemma_place(files.drop_last(), name);
    }
}

/// The place of a name among the files.
fn find_place(files: &Vec<FileInfo>, name: &str) -> (k: usize)
    ensures
        k == place_for(files@, name@),
        k <= files@.len(),
{
    let mut k: usize = files.len();
    assert(files@.take(k as int) =~= files@);
    while k > 0
        invariant
            k <= files@.len(),
            place_for(files@, name@) == place_for(files@.take(k as int), name@),
        decreases k,
    {
        if text_ordered(files[k - 1].name.as_str(), name) {
            assert(files@.take(k as int).last() == files@[k - 1]);
            return k;
        }
        assert(files@.take(k as int).drop_last() =~= files@.take(k as int - 1));
        k = k - 1;
    }
    k
}

/// The files in the order of their names.
pub fn sort_by_name(files: &Vec<FileInfo>) -> (r: Vec<FileInfo>)
    ensures
        r@ == sorted(files@),
        r@.len() == files@.len(),
        forall|i: int, j: int|
            0 <= i < j < r@.len() ==> text_le((#[trigger] r@[i]).name@, (#[trigger] r@[j]).name@),
        r@.to_multiset() == files@.to_multiset(),
{
    proof {
        law_sorted(files@);
        law_sorted_len(files@);
    }
    let mut r: Vec<FileInfo> = Vec::new();
    assert(files@.take(0) =~= Seq::<FileInfo>::empty());
    for i in 0..files.len()
        invariant
            r@ == sorted(files@.take(i as int)),
    {
        assert(files@.take(i as int + 1).drop_last() =~= files@.take(i as int));
        let file = files[i].clone();
        let k: usize = find_place(&r, file.name.as_str());
        r.insert(k, file);
    }
    assert(files@.take(files@.len() as int) =~= files@);
    r
}

/// The order of texts is total.
proof fn lemma_text_le_total(a: Seq<char>, b: Seq<char>)
    ensures
        text_le(a, b) || text_le(b, a),
    decreases a.len(),
{
    if a.len() > 0 && b.len() > 0 && a[0] == b[0] {
        lemma_text_le_total(a.drop_first(), b.drop_first());
    }
}

/// The order of texts is transitive.
proof fn lemma_text_le_transitive(a: Seq<char>, b: Seq<char>, c: Seq<char>)
    requires
        text_le(a, b),
        text_le(b, c),
    ensures
        text_le(a, c),
    decreases a.len(),
{
    if a.len() > 0 && b.len() > 0 && c.len() > 0 && a[0] == b[0] && b[0] == c[0] {
        lemma_text_le_transitive(a.drop_first(), b.drop_first(), c.drop_first());
    }
}

/// Before the place of a name stands nothing that comes behind it, and from the
/// place on nothing that does not, as long as the files are in order.
proof fn lemma_place_splits(files: Seq<FileInfo>, name: Seq<char>)
    requires
        forall|i: int, j: int|
            0 <= i < j < files.len() ==> text_le(
                (#[trigger] files[i]).name@,
                (#[trigger] files[j]).name@,
            ),
    ensures
        forall|i: int|
            0 <= i < place_for(files, name) ==> text_le((#[trigger] files[i]).name@, name),
        forall|i: int|
            place_for(files, name) <= i < files.len() ==> text_le(
                name,
                (#[trigger] files[i]).name@,
            ),
    decreases files.len(),
{
    if files.len() > 0 {
        let last = files[files.len() - 1].name@;
        if text_le(last, name) {
            assert forall|i: int| 0 <= i < place_for(files, name) implies text_le(
                (#[trigger] files[i]).name@,
                name,
            ) by {
                if i < files.len() - 1 {
                    lemma_text_le_transitive(files[i].name@, last, name);
                }
            }
        } else {
            let head = files.drop_last();
            assert forall|i: int, j: int| 0 <= i < j < head.len() implies text_le(
                (#[trigger] head[i]).name@,
                (#[trigger] head[j]).name@,
            ) by {
                assert(text_le(files[i].name@, files[j].name@));
            }
            lemma_place_splits(head, name);
            lemma_place(head, name);
            lemma_text_le_total(last, name);
            assert forall|i: int| 0 <= i < place_for(files, name) implies text_le(
                (#[trigger] files[i]).name@,
                name,
            ) by {
                assert(files[i] == head[i]);
            }
            assert forall|i: int| place_for(files, name) <= i < files.len() implies text_le(
                name,
                (#[trigger] files[i]).name@,
            ) by {
                if i < head.len() {
                    assert(files[i] == head[i]);
                }
            }
        }
    }
}

/// A directory is listed in the order of its names, and lists every file as
/// often as it is there.
pub proof fn law_sorted(files: Seq<FileInfo>)
    ensures
        forall|i: int, j: int|
            0 <= i < j < sorted(files).len() ==> text_le(
                (#[trigger] sorted(files)[i]).name@,
                (#[trigger] sorted(files)[j]).name@,
            ),
        sorted(files).to_multiset() == files.to_multiset(),
    decreases files.len(),
{
    if files.len() > 0 {
        let head = files.drop_last();
        let before = sorted(head);
        let last = files.last();
        let k = place_for(before, last.name@);
        law_sorted(head);
        lemma_place(before, last.name@);
        lemma_place_splits(before, last.name@);
        let all = before.insert(k, last);
        assert forall|i: int, j: int| 0 <= i < j < all.len() implies text_le(
            (#[trigger] all[i]).name@,
            (#[trigger] all[j]).name@,
        ) by {
            if i < k && j < k {
                assert(all[i] == before[i] && all[j] == before[j]);
            } else if i < k && j > k {
                assert(all[i] == before[i] && all[j] == before[j - 1]);
            } else if i > k {
                assert(all[i] == before[i - 1] && all[j] == before[j - 1]);
            } else if i == k && j > k {
                assert(all[j] == before[j - 1]);
            } else {
                assert(all[i] == before[i]);
            }
        }
        vstd::seq_lib::to_multiset_insert(before, k, last);
        vstd::seq_lib::to_multiset_build(head, last);
        assert(head.push(last) =~= files);
    } else {
        assert(files =~= Seq::<FileInfo>::empty());
    }
}

/// The volume.
pub struct WinFs {
    pub server_url: String,
    pub inode_cache: HashMap<u64, String>,
    pub metadata_cache: PathTable<(u64, FileInfo)>,
    pub next_inode: u64,
}

/// The model of the volume: which path a number stands for, what is remembered
/// of a path, and the next number.
#[verifier::ext_equal]
pub struct VolumeView {
    pub paths: Map<u64, Seq<char>>,
    pub known: Map<Seq<char>, (u64, FileInfo)>,
    pub next: nat,
}

/// What is remembered of a path has its number, and no number was given out that
/// is yet to come.
pub open spec fn sound(v: VolumeView) -> bool {
    &&& forall|p: Seq<char>| #[trigger]
        v.known.contains_key(p) ==> v.paths.contains_key(v.known[p].0) && v.paths[v.known[p].0]
            == p
    &&& forall|i: u64| #[trigger] v.paths.contains_key(i) ==> WINFSP_ROOT_ID < i < v.next
    &&& v.next > WINFSP_ROOT_ID
}

/// The volume once a file was learnt of at `path`, with the next number.
pub open spec fn admitted(v: VolumeView, path: Seq<char>, f: FileInfo) -> VolumeView {
    VolumeView {
        paths: v.paths.insert(v.next as u64, path),
        known: v.known.insert(path, (v.next as u64, f)),
        next: v.next + 1,
    }
}

/// Where an operation stands.
#[derive(Debug)]
pub enum WinStep<T> {
    /// This request has to be sent.
    Ask(Request),
    /// It ended.
    Done(Result<T, NtStatus>),
}

/// The step sends a request to this address, or ends with a status for want of
/// one.
pub open spec fn asks<T>(
    step: WinStep<T>,
    url: Option<Seq<char>>,
    method: Method,
    content_type: Option<Seq<char>>,
    body: BodyView,
    otherwise: NtStatus,
) -> bool {
    match url {
        Some(u) => step matches WinStep::Ask(q) && q@ == (RequestView {
            method,
            url: u,
            content_range: None,
            content_type,
            body,
        }),
        None => step == WinStep::<T>::Done(Err(otherwise)),
    }
}

/// The access asks for writing.
pub open spec fn writes(access: u32) -> bool {
    access & (GENERIC_WRITE | FILE_WRITE_DATA | FILE_APPEND_DATA) != 0
}

/// What is noted of a file or a directory that was made at `now`.
pub open spec fn fresh(f: FileInfo, path: Seq<char>, is_dir: bool, now: u64) -> bool {
    &&& f.name@ == after_last(path, '/')
    &&& f.path@ == path
    &&& f.file_type@ == (if is_dir {
        "dir"@
    } else {
        "file"@
    })
    &&& f.size == 0
    &&& f.timestamp == now
    &&& f.permissions@ == "755"@
}

/// A listing under way: the files in order, and how many of them were looked at.
#[derive(Debug)]
pub struct DirScan {
    pub context: u64,
    pub path: String,
    pub marker: Option<Vec<u16>>,
    pub files: Vec<FileInfo>,
    pub next: usize,
}

/// An entry of a listing.
#[derive(Debug)]
pub struct ListedFile {
    pub name: String,
    pub info: WinFileInfo,
}

/// The units of a marker.
pub open spec fn units_in(marker: Option<Vec<u16>>) -> Option<Seq<u16>> {
    match marker {
        Some(m) => Some(m@),
        None => None,
    }
}

/// The entry is left out: its name cannot be written in sixteen-bit units, or
/// does not come behind the marker.
pub open spec fn left_out(f: FileInfo, marker: Option<Seq<u16>>) -> bool {
    match wide_units(f.name@) {
        None => true,
        Some(u) => match marker {
            Some(m) => units_le(u, m),
            None => false,
        },
    }
}

/// The first file from `from` on that is not left out.
pub open spec fn next_listed(files: Seq<FileInfo>, from: int, marker: Option<Seq<u16>>) -> int
    decreases files.len() - from,
{
    if from >= files.len() {
        files.len() as int
    } else if left_out(files[from], marker) {
        next_listed(files, from + 1, marker)
    } else {
        from
    }
}

/// The path of an entry of the directory `dir`.
pub open spec fn entry_path(dir: Seq<char>, name: Seq<char>) -> Seq<char> {
    if dir.len() == 0 {
        name
    } else {
        dir + "/"@ + name
    }
}

/// The name is one of the two that every directory has.
pub open spec fn dotted(name: Seq<char>) -> bool {
    name == "."@ || name == ".."@
}

/// The number of the entry `f` of the directory `dir`, which has the number
/// `context`.
pub open spec fn entry_number(v: VolumeView, context: u64, dir: Seq<char>, f: FileInfo) -> u64 {
    let path = entry_path(dir, f.name@);
    if f.name@ == "."@ {
        context
    } else if f.name@ == ".."@ {
        WINFSP_ROOT_ID
    } else if v.known.contains_key(path) {
        v.known[path].0
    } else {
        v.next as u64
    }
}

/// The volume once the entry `f` of the directory `dir` has a number.
pub open spec fn after_entry(v: VolumeView, dir: Seq<char>, f: FileInfo) -> VolumeView {
    let path = entry_path(dir, f.name@);
    if dotted(f.name@) || v.known.contains_key(path) {
        v
    } else {
        admitted(v, path, f)
    }
}

/// One of the two entries that every directory has.
pub open spec fn is_dots(f: FileInfo, name: Seq<char>, now: u64) -> bool {
    &&& f.name@ == name
    &&& f.path@ == name
    &&& f.file_type@ == "dir"@
    &&& f.size == 0
    &&& f.timestamp == now
    &&& f.permissions@ == "755"@
}

fn dots(name: &str, now: u64) -> (f: FileInfo)
    ensures
        is_dots(f, name@, now),
{
    FileInfo {
        name: owned(name),
        path: owned(name),
        file_type: owned("dir"),
        size: 0,
        timestamp: now,
        permissions: owned("755"),
    }
}

impl WinFs {
    /// The model.
    pub open spec fn model(&self) -> VolumeView {
        VolumeView {
            paths: self.inode_cache@.map_values(|s: String| s@),
            known: self.metadata_cache@,
            next: self.next_inode as nat,
        }
    }

    /// The volume is sound.
    pub open spec fn wf(&self) -> bool {
        self.metadata_cache.wf() && sound(self.model())
    }

    /// A volume of which only the root is known.
    pub fn new(server_url: String) -> (fs: Self)
        ensures
            fs.wf(),
            fs.server_url@ == server_url@,
            fs.model() == (VolumeView {
                paths: Map::<u64, Seq<char>>::empty(),
                known: Map::<Seq<char>, (u64, FileInfo)>::empty(),
                next: 2,
            }),
    {
        let fs = WinFs {
            server_url,
            inode_cache: HashMap::new(),
            metadata_cache: PathTable::new(),
            next_inode: 2,
        };
        assert(fs.model().paths =~= Map::<u64, Seq<char>>::empty());
        fs
    }

    /// The step that sends a request to `path` below `route`, or ends with a
    /// status for want of an address.
    fn request<T>(
        &self,
        method: Method,
        route: &str,
        path: &str,
        content_type: Option<&str>,
        body: Body,
        otherwise: NtStatus,
    ) -> (step: WinStep<T>)
        ensures
            asks(
                step,
                joined_url(self.server_url@, route@ + path@),
                method,
                match content_type {
                    Some(c) => Some(c@),
                    None => None,
                },
                body@,
                otherwise,
            ),
            step matches WinStep::Ask(q) ==> q.method == method && q.body == body && q.content_range is None
                && joined_url(self.server_url@, route@ + path@) == Some(q.url@),
            !(step matches WinStep::Done(Ok(_))),
    {
        let mut rel = owned(route);
        rel.append(path);
        match join_url(self.server_url.as_str(), rel.as_str()) {
            Some(url) => WinStep::Ask(
                Request {
                    method,
                    url,
                    content_range: None,
                    content_type: match content_type {
                        Some(c) => Some(owned(c)),
                        None => None,
                    },
                    body,
                },
            ),
            None => WinStep::Done(Err(otherwise)),
        }
    }

    /// The path that a number stands for.
    fn path_for(&self, context: u64) -> (r: Option<String>)
        ensures
            match r {
                Some(p) => self.model().paths.contains_key(context) && p@
                    == self.model().paths[context],
                None => !self.model().paths.contains_key(context),
            },
    {
        match self.inode_cache.get(&context) {
            Some(p) => Some(p.clone()),
            None => None,
        }
    }

    /// Takes in a file with the next number.
    fn take_in(&mut self, path: &str, f: FileInfo) -> (ino: u64)
        requires
            old(self).wf(),
            old(self).model().next < u64::MAX,
        ensures
            final(self).wf(),
            final(self).server_url@ == old(self).server_url@,
            ino == old(self).model().next,
            final(self).model() == admitted(old(self).model(), path@, f),
    {
        let ghost before = self.model();
        let ino: u64 = self.next_inode;
        self.next_inode = ino + 1;
        self.metadata_cache.insert(owned(path), (ino, f));
        self.inode_cache.insert(ino, owned(path));
        assert(self.model() =~= admitted(before, path@, f));
        ino
    }

    /// Tells of the file with a number. `now` is a file time; `answer` is what
    /// asking the server gave, with `None` within for a failure.
    pub fn get_file_info(
        &mut self,
        context: u64,
        now: u64,
        answer: Option<Option<FileInfo>>,
    ) -> (step: WinStep<WinFileInfo>)
        requires
            old(self).wf(),
            answer matches Some(Some(f)) ==> tellable(f),
            ({
                let v = old(self).model();
                answer is None && v.paths.contains_key(context) && v.known.contains_key(
                    v.paths[context],
                ) ==> tellable(v.known[v.paths[context]].1)
            }),
        ensures
            final(self).wf(),
            final(self).server_url@ == old(self).server_url@,
            ({
                let v = old(self).model();
                if context == WINFSP_ROOT_ID {
                    step == WinStep::Done(Ok(told_of_root(now))) && final(self).model() == v
                } else if !v.paths.contains_key(context) {
                    step == WinStep::<WinFileInfo>::Done(Err(STATUS_NO_SUCH_FILE)) && final(self).model() == v
                } else {
                    match answer {
                        None => if v.known.contains_key(v.paths[context]) {
                            step == WinStep::Done(Ok(told(context, v.known[v.paths[context]].1)))
                                && final(self).model() == v
                        } else {
                            asks(
                                step,
                                joined_url(old(self).server_url@, "/stat/"@ + v.paths[context]),
                                Method::Get,
                                None,
                                BodyView::Empty,
                                STATUS_NO_SUCH_FILE,
                            ) && final(self).model() == v
                        },
                        Some(None) => step == WinStep::<WinFileInfo>::Done(
                            Err(STATUS_NO_SUCH_FILE),
                        ) && final(self).model() == v,
                        Some(Some(f)) => step == WinStep::Done(Ok(told(context, f))) && final(self).model() == (VolumeView {
                            known: v.known.insert(v.paths[context], (context, f)),
                            ..v
                        }),
                    }
                }
            }),
            context == 1 ==> (step matches WinStep::Done(Ok(i)) && i.index_number == 1 && i.file_attributes
                == 0x10 && i.file_size == 0 && i.creation_time == now),
            context != 1 ==> (step matches WinStep::Done(Ok(i)) ==> i.index_number == context),
            context != 1 && old(self).model().paths.contains_key(context) ==> (answer matches Some(Some(f))
                ==> (step matches WinStep::Done(Ok(i)) && i.file_size == f.size && (i.file_attributes == 0x10
                <==> f.file_type@ == "dir"@) && i.last_write_time == 116_444_736_000_000_000 + 10_000_000
                * f.timestamp)),
            context != 1 && !old(self).model().paths.contains_key(context) ==> (step matches WinStep::Done(
                Err(status),
            ) && status == 2),
            step matches WinStep::Ask(q) ==> q.method == Method::Get && q.body is Empty,
            step matches WinStep::Ask(q) ==> joined_url(
                old(self).server_url@,
                "/stat/"@ + old(self).model().paths[context],
            ) == Some(q.url@),
    {
        if context == WINFSP_ROOT_ID {
            return WinStep::Done(Ok(root_file_info_at(now)));
        }
        let path = match self.path_for(context) {
            Some(p) => p,
            None => {
                return WinStep::Done(Err(STATUS_NO_SUCH_FILE));
            },
        };
        if answer.is_none() {
            if let Some(known) = self.metadata_cache.get(path.as_str()) {
                return WinStep::Done(Ok(create_file_info(context, &known.1)));
            }
        }
        match answer {
            None => self.request(
                Method::Get,
                "/stat/",
                path.as_str(),
                None,
                Body::Empty,
                STATUS_NO_SUCH_FILE,
            ),
            Some(None) => WinStep::Done(Err(STATUS_NO_SUCH_FILE)),
            Some(Some(f)) => {
                let info = create_file_info(context, &f);
                let ghost before = self.model();
                let ghost p = path@;
                self.metadata_cache.insert(path, (context, f));
                assert(self.model() =~= VolumeView {
                    known: before.known.insert(p, (context, f)),
                    ..before
                });
                WinStep::Done(Ok(info))
            },
        }
    }

    /// Opens what stands at a path: its number is its context. A name that is no
    /// text (`None`) stands for nothing.
    pub fn open(&mut self, file_name: Option<&str>, answer: Option<Option<FileInfo>>) -> (step:
        WinStep<u64>)
        requires
            old(self).wf(),
            old(self).model().next < u64::MAX,
        ensures
            final(self).wf(),
            final(self).server_url@ == old(self).server_url@,
            ({
                let v = old(self).model();
                let path = match file_name {
                    Some(n) => bare_path(n@),
                    None => Seq::empty(),
                };
                if file_name is None {
                    step == WinStep::<u64>::Done(Err(STATUS_NO_SUCH_FILE)) && final(self).model()
                        == v
                } else if path.len() == 0 {
                    step == WinStep::Done(Ok(WINFSP_ROOT_ID)) && final(self).model() == v
                } else {
                    match answer {
                        None => if v.known.contains_key(path) {
                            step == WinStep::Done(Ok(v.known[path].0)) && final(self).model() == v
                        } else {
                            asks(
                                step,
                                joined_url(old(self).server_url@, "/stat/"@ + path),
                                Method::Get,
                                None,
                                BodyView::Empty,
                                STATUS_NO_SUCH_FILE,
                            ) && final(self).model() == v
                        },
                        Some(None) => step == WinStep::<u64>::Done(Err(STATUS_NO_SUCH_FILE))
                            && final(self).model() == v,
                        Some(Some(f)) => step == WinStep::Done(Ok(v.next as u64)) && final(self).model() == admitted(v, path, f),
                    }
                }
            }),
            file_name is None ==> (step matches WinStep::Done(Err(status)) && status == 2),
            file_name matches Some(n) ==> (bare_path(n@).len() == 0 ==> step == WinStep::Done(Ok(1u64))),
            file_name matches Some(n) ==> (bare_path(n@).len() > 0 ==> (step matches WinStep::Done(Ok(ino))
                ==> final(self).model().known.contains_key(bare_path(n@)) && final(self).model().known[bare_path(n@)].0 == ino && final(self).model().paths[ino] == bare_path(
                n@,
            ))),
            file_name matches Some(n) ==> (bare_path(n@).len() > 0 ==> (answer matches Some(Some(f))
                ==> (step matches WinStep::Done(Ok(ino)) && final(self).model().known[bare_path(n@)].1 == f))),
            step matches WinStep::Ask(q) ==> q.method == Method::Get && q.body is Empty && answer is None,
            step matches WinStep::Ask(q) ==> (file_name matches Some(n) && joined_url(
                old(self).server_url@,
                "/stat/"@ + bare_path(n@),
            ) == Some(q.url@)),
    {
        let path = match file_name {
            Some(n) => normalize_path(n),
            None => {
                return WinStep::Done(Err(STATUS_NO_SUCH_FILE));
            },
        };
        if path.as_str().unicode_len() == 0 {
            return WinStep::Done(Ok(WINFSP_ROOT_ID));
        }
        if answer.is_none() {
            if let Some(known) = self.metadata_cache.get(path.as_str()) {
                return WinStep::Done(Ok(known.0));
            }
        }
        match answer {
            None => self.request(
                Method::Get,
                "/stat/",
                path.as_str(),
                None,
                Body::Empty,
                STATUS_NO_SUCH_FILE,
            ),
            Some(None) => WinStep::Done(Err(STATUS_NO_SUCH_FILE)),
            Some(Some(f)) => {
                let ino: u64 = self.take_in(path.as_str(), f);
                WinStep::Done(Ok(ino))
            },
        }
    }

    /// Makes a file or a directory. What only looks for files, wants to delete, or
    /// names a file that the system looks for everywhere makes nothing. A name that
    /// is no text (`None`) is refused. `made` says whether the server made it, at
    /// `now`.
    pub fn create(
        &mut self,
        file_name: Option<&str>,
        access: u32,
        attributes: u32,
        made: Option<bool>,
        now: u64,
    ) -> (step: WinStep<u64>)
        requires
            old(self).wf(),
            old(self).model().next < u64::MAX,
        ensures
            final(self).wf(),
            final(self).server_url@ == old(self).server_url@,
            match file_name {
                None => step == WinStep::<u64>::Done(Err(STATUS_ACCESS_DENIED))
                    && final(self).model() == old(self).model(),
                Some(n) => making(
                    *old(self),
                    *final(self),
                    n@,
                    access,
                    attributes,
                    system_name(lowered(after_last(bare_path(n@), '/'))),
                    made,
                    now,
                    step,
                ),
            },
    {
        match file_name {
            None => WinStep::Done(Err(STATUS_ACCESS_DENIED)),
            Some(n) => {
                let path = normalize_path(n);
                let system = is_system_file(path.as_str());
                self.create_named(n, access, attributes, system, made, now)
            },
        }
    }

    /// Makes a file or a directory, given whether the path names a file that the
    /// system looks for everywhere.
    pub fn create_named(
        &mut self,
        file_name: &str,
        access: u32,
        attributes: u32,
        system: bool,
        made: Option<bool>,
        now: u64,
    ) -> (step: WinStep<u64>)
        requires
            old(self).wf(),
            old(self).model().next < u64::MAX,
        ensures
            final(self).wf(),
            final(self).server_url@ == old(self).server_url@,
            making(*old(self), *final(self), file_name@, access, attributes, system, made, now, step),
            bare_path(file_name@).len() == 0 ==> (step matches WinStep::Done(Err(status)) && status == 5),
            bare_path(file_name@).len() > 0 && (system || access & 0x0001_0000 != 0) ==> (step
                matches WinStep::Done(Err(status)) && status == 2),
            step matches WinStep::Done(Ok(ino)) ==> made == Some(true) && final(self).model().known.contains_key(
                bare_path(file_name@),
            ) && final(self).model().known[bare_path(file_name@)].0 == ino && final(self).model().known[bare_path(file_name@)].1.size == 0 && final(self).model().known[bare_path(
                file_name@,
            )].1.timestamp == now && (attributes & 0x10 != 0 ==> final(self).model().known[bare_path(
                file_name@,
            )].1.file_type@ == "dir"@) && (attributes & 0x10 == 0 ==> final(self).model().known[bare_path(
                file_name@,
            )].1.file_type@ == "file"@),
            step matches WinStep::Ask(q) ==> made is None && (attributes & 0x10 != 0 ==> q.method
                == Method::Post && q.body is Empty) && (attributes & 0x10 == 0 ==> q.method == Method::Put && (
            q.body matches Body::Bytes(b) && b@.len() == 0)),
            step matches WinStep::Ask(q) ==> (attributes & 0x10 != 0 ==> joined_url(
                old(self).server_url@,
                "/mkdir/"@ + bare_path(file_name@),
            ) == Some(q.url@)) && (attributes & 0x10 == 0 ==> joined_url(
                old(self).server_url@,
                "/files/"@ + bare_path(file_name@),
            ) == Some(q.url@)),
    {
        let path = normalize_path(file_name);
        if path.as_str().unicode_len() == 0 {
            return WinStep::Done(Err(STATUS_ACCESS_DENIED));
        }
        let has_write_access = (access & (GENERIC_WRITE | FILE_WRITE_DATA | FILE_APPEND_DATA)) != 0;
        let is_delete_intent = (access & DELETE) != 0;
        if !has_write_access || system || is_delete_intent {
            return WinStep::Done(Err(STATUS_NO_SUCH_FILE));
        }
        let is_dir = (attributes & FILE_ATTRIBUTE_DIRECTORY) != 0;
        match made {
            None => if is_dir {
                self.request(
                    Method::Post,
                    "/mkdir/",
                    path.as_str(),
                    None,
                    Body::Empty,
                    STATUS_ACCESS_DENIED,
                )
            } else {
                let empty: Vec<u8> = Vec::new();
                assert(empty@ =~= Seq::<u8>::empty());
                self.request(
                    Method::Put,
                    "/files/",
                    path.as_str(),
                    Some("text/plain"),
                    Body::Bytes(empty),
                    STATUS_ACCESS_DENIED,
                )
            },
            Some(false) => WinStep::Done(Err(STATUS_ACCESS_DENIED)),
            Some(true) => {
                let info = FileInfo {
                    name: last_piece(path.as_str()),
                    path: path.clone(),
                    file_type: if is_dir {
                        owned("dir")
                    } else {
                        owned("file")
                    },
                    size: 0,
                    timestamp: now,
                    permissions: owned("755"),
                };
                let ino: u64 = self.take_in(path.as_str(), info);
                WinStep::Done(Ok(ino))
            },
        }
    }

    /// Reads from a file, whose whole contents the server sends (`data`).
    pub fn read(
        &self,
        context: u64,
        len: usize,
        offset: u64,
        data: Option<Option<Vec<u8>>>,
    ) -> (step: WinStep<Vec<u8>>)
        ensures
            ({
                let v = self.model();
                if context == WINFSP_ROOT_ID {
                    step == WinStep::<Vec<u8>>::Done(Err(STATUS_UNSUPPORTED))
                } else if !v.paths.contains_key(context) {
                    step == WinStep::<Vec<u8>>::Done(Err(STATUS_NO_SUCH_FILE))
                } else {
                    match data {
                        None => asks(
                            step,
                            joined_url(self.server_url@, "/files/"@ + v.paths[context]),
                            Method::Get,
                            None,
                            BodyView::Empty,
                            STATUS_DEVICE_IO_ERROR,
                        ),
                        Some(None) => step == WinStep::<Vec<u8>>::Done(Err(STATUS_DEVICE_IO_ERROR)),
                        Some(Some(bytes)) => step matches WinStep::Done(Ok(b)) && b@ == slice(
                            bytes@,
                            offset as int,
                            len as int,
                        ),
                    }
                }
            }),
            context != 1 && self.model().paths.contains_key(context) ==> (data matches Some(Some(bytes)) ==> {
                &&& step matches WinStep::Done(Ok(b))
                &&& b@.len() == (if offset >= bytes@.len() {
                    0
                } else if bytes@.len() - offset < len {
                    bytes@.len() - offset
                } else {
                    len as int
                })
                &&& forall|i: int| 0 <= i < b@.len() ==> #[trigger] b@[i] == bytes@[offset + i]
            }),
            step matches WinStep::Done(Ok(_)) ==> context != 1 && self.model().paths.contains_key(context) && (
            data matches Some(Some(_))),
            step matches WinStep::Ask(q) ==> data is None && q.method == Method::Get && q.body is Empty,
            step matches WinStep::Ask(q) ==> joined_url(
                self.server_url@,
                "/files/"@ + self.model().paths[context],
            ) == Some(q.url@),
    {
        if context == WINFSP_ROOT_ID {
            return WinStep::Done(Err(STATUS_UNSUPPORTED));
        }
        let path = match self.path_for(context) {
            Some(p) => p,
            None => {
                return WinStep::Done(Err(STATUS_NO_SUCH_FILE));
            },
        };
        match data {
            None => self.request(
                Method::Get,
                "/files/",
                path.as_str(),
                None,
                Body::Empty,
                STATUS_DEVICE_IO_ERROR,
            ),
            Some(None) => WinStep::Done(Err(STATUS_DEVICE_IO_ERROR)),
            Some(Some(bytes)) => WinStep::Done(Ok(slice_of(&bytes, offset, len as u64))),
        }
    }

    /// Writes a file anew with `data`. Writing anywhere but at the beginning is not
    /// supported. `written` says whether the server wrote it. The answer is how
    /// many bytes were written, in thirty-two bits.
    pub fn write(
        &mut self,
        context: u64,
        data: &Vec<u8>,
        offset: u64,
        written: Option<bool>,
    ) -> (step: WinStep<u32>)
        requires
            old(self).wf(),
        ensures
            final(self).wf(),
            final(self).server_url@ == old(self).server_url@,
            ({
                let v = old(self).model();
                if context == WINFSP_ROOT_ID {
                    step == WinStep::<u32>::Done(Err(STATUS_ACCESS_DENIED)) && final(self).model() == v
                } else if offset > 0 {
                    step == WinStep::<u32>::Done(Err(STATUS_UNSUPPORTED)) && final(self).model() == v
                } else if !v.paths.contains_key(context) {
                    step == WinStep::<u32>::Done(Err(STATUS_NO_SUCH_FILE)) && final(self).model() == v
                } else {
                    match written {
                        None => asks(
                            step,
                            joined_url(old(self).server_url@, "/files/"@ + v.paths[context]),
                            Method::Put,
                            Some("application/octet-stream"@),
                            BodyView::Bytes(data@),
                            STATUS_DEVICE_IO_ERROR,
                        ) && final(self).model() == v,
                        Some(false) => step == WinStep::<u32>::Done(Err(STATUS_DEVICE_IO_ERROR))
                            && final(self).model() == v,
                        Some(true) => step == WinStep::Done(Ok(data@.len() as u32))
                            && final(self).model() == resized(
                            v,
                            v.paths[context],
                            data@.len() as u64,
                        ),
                    }
                }
            }),
            step matches WinStep::Done(Ok(n)) ==> context != 1 && offset == 0 && written == Some(true) && (
            data@.len() <= u32::MAX ==> n == data@.len()),
            step matches WinStep::Done(Ok(_)) ==> (old(self).model().known.contains_key(
                old(self).model().paths[context],
            ) ==> final(self).model().known[old(self).model().paths[context]].1.size == data@.len()),
            context != 1 && offset == 0 && old(self).model().paths.contains_key(context) && written == Some(
                true,
            ) ==> (step matches WinStep::Done(Ok(_))),
            step matches WinStep::Ask(q) ==> written is None && q.method == Method::Put && (q.body
                matches Body::Bytes(b) && b@ == data@),
            step matches WinStep::Ask(q) ==> joined_url(
                old(self).server_url@,
                "/files/"@ + old(self).model().paths[context],
            ) == Some(q.url@),
    {
        if context == WINFSP_ROOT_ID {
            return WinStep::Done(Err(STATUS_ACCESS_DENIED));
        }
        if offset > 0 {
            return WinStep::Done(Err(STATUS_UNSUPPORTED));
        }
        let path = match self.path_for(context) {
            Some(p) => p,
            None => {
                return WinStep::Done(Err(STATUS_NO_SUCH_FILE));
            },
        };
        match written {
            None => self.request(
                Method::Put,
                "/files/",
                path.as_str(),
                Some("application/octet-stream"),
                Body::Bytes(copy_of(data)),
                STATUS_DEVICE_IO_ERROR,
            ),
            Some(false) => WinStep::Done(Err(STATUS_DEVICE_IO_ERROR)),
            Some(true) => {
                let len: usize = data.len();
                self.resize(path.as_str(), len as u64);
                WinStep::Done(Ok(#[verifier::truncate] (len as u32)))
            },
        }
    }

    /// Notes the size of a file, where anything is remembered of it.
    fn resize(&mut self, path: &str, size: u64) -> (r: Option<(u64, FileInfo)>)
        requires
            old(self).wf(),
        ensures
            final(self).wf(),
            final(self).server_url@ == old(self).server_url@,
            final(self).model() == resized(old(self).model(), path@, size),
            match r {
                Some(p) => old(self).model().known.contains_key(path@) && p == final(self).model().known[path@],
                None => !old(self).model().known.contains_key(path@),
            },
    {
        let ghost before = self.model();
        match self.metadata_cache.remove(path) {
            Some(known) => {
                let info = FileInfo { size, ..known.1 };
                let copy = info.clone();
                self.metadata_cache.insert(owned(path), (known.0, info));
                assert(self.model() =~= resized(before, path@, size));
                Some((known.0, copy))
            },
            None => {
                assert(self.model() =~= resized(before, path@, size));
                None
            },
        }
    }

    /// Notes the size of a file of which something is remembered, and tells of it.
    pub fn set_file_size(&mut self, context: u64, new_size: u64) -> (r: Result<
        WinFileInfo,
        NtStatus,
    >)
        requires
            old(self).wf(),
            ({
                let v = old(self).model();
                v.paths.contains_key(context) && v.known.contains_key(v.paths[context])
                    ==> tellable(FileInfo { size: new_size, ..v.known[v.paths[context]].1 })
            }),
        ensures
            final(self).wf(),
            final(self).server_url@ == old(self).server_url@,
            ({
                let v = old(self).model();
                if context == WINFSP_ROOT_ID {
                    r == Err::<WinFileInfo, NtStatus>(STATUS_ACCESS_DENIED) && final(self).model() == v
                } else if !v.paths.contains_key(context) || !v.known.contains_key(
                    v.paths[context],
                ) {
                    r == Err::<WinFileInfo, NtStatus>(STATUS_NO_SUCH_FILE) && final(self).model()
                        == v
                } else {
                    let after = resized(v, v.paths[context], new_size);
                    r == Ok::<WinFileInfo, NtStatus>(told(context, after.known[v.paths[context]].1))
                        && final(self).model() == after
                }
            }),
            r matches Ok(i) ==> i.file_size == new_size && i.index_number == context && i.allocation_size
                % 4096 == 0 && new_size <= i.allocation_size < new_size + 4096,
            r matches Ok(_) ==> final(self).model().known[old(self).model().paths[context]].1.size == new_size,
            r is Ok <==> context != 1 && old(self).model().paths.contains_key(context) && old(self).model().known.contains_key(old(self).model().paths[context]),
    {
        if context == WINFSP_ROOT_ID {
            return Err(STATUS_ACCESS_DENIED);
        }
        let path = match self.path_for(context) {
            Some(p) => p,
            None => {
                return Err(STATUS_NO_SUCH_FILE);
            },
        };
        match self.resize(path.as_str(), new_size) {
            Some(known) => Ok(create_file_info(context, &known.1)),
            None => {
                Err(STATUS_NO_SUCH_FILE)
            },
        }
    }

    /// Deletes a file or a directory. `deleted` says whether the server deleted
    /// it; then nothing of it is remembered any more.
    pub fn delete_file(&mut self, context: u64, deleted: Option<bool>) -> (step: WinStep<()>)
        requires
            old(self).wf(),
        ensures
            final(self).wf(),
            final(self).server_url@ == old(self).server_url@,
            ({
                let v = old(self).model();
                if context == WINFSP_ROOT_ID {
                    step == WinStep::<()>::Done(Err(STATUS_ACCESS_DENIED)) && final(self).model() == v
                } else if !v.paths.contains_key(context) {
                    step == WinStep::<()>::Done(Err(STATUS_NO_SUCH_FILE)) && final(self).model()
                        == v
                } else {
                    match deleted {
                        None => asks(
                            step,
                            joined_url(old(self).server_url@, "/files/"@ + v.paths[context]),
                            Method::Delete,
                            None,
                            BodyView::Empty,
                            STATUS_DEVICE_IO_ERROR,
                        ) && final(self).model() == v,
                        Some(false) => step == WinStep::<()>::Done(Err(STATUS_DEVICE_IO_ERROR))
                            && final(self).model() == v,
                        Some(true) => step == WinStep::<()>::Done(Ok(())) && final(self).model()
                            == (VolumeView {
                            paths: v.paths.remove(context),
                            known: v.known.remove(v.paths[context]),
                            ..v
                        }),
                    }
                }
            }),
            context == 1 ==> (step matches WinStep::Done(Err(status)) && status == 5),
            step matches WinStep::Done(Ok(_)) ==> deleted == Some(true) && !final(self).model().paths.contains_key(context) && !final(self).model().known.contains_key(
                old(self).model().paths[context],
            ),
            !(step matches WinStep::Done(Ok(_))) ==> final(self).model() == old(self).model(),
            context != 1 && old(self).model().paths.contains_key(context) && deleted == Some(true) ==> (step
                matches WinStep::Done(Ok(_))),
            step matches WinStep::Ask(q) ==> deleted is None && q.method == Method::Delete && q.body is Empty,
            step matches WinStep::Ask(q) ==> joined_url(
                old(self).server_url@,
                "/files/"@ + old(self).model().paths[context],
            ) == Some(q.url@),
    {
        if context == WINFSP_ROOT_ID {
            return WinStep::Done(Err(STATUS_ACCESS_DENIED));
        }
        let path = match self.path_for(context) {
            Some(p) => p,
            None => {
                return WinStep::Done(Err(STATUS_NO_SUCH_FILE));
            },
        };
        match deleted {
            None => self.request(
                Method::Delete,
                "/files/",
                path.as_str(),
                None,
                Body::Empty,
                STATUS_DEVICE_IO_ERROR,
            ),
            Some(false) => WinStep::Done(Err(STATUS_DEVICE_IO_ERROR)),
            Some(true) => {
                let ghost before = self.model();
                self.metadata_cache.remove(path.as_str());
                self.inode_cache.remove(&context);
                assert(self.model() =~= VolumeView {
                    paths: before.paths.remove(context),
                    known: before.known.remove(path@),
                    ..before
                });
                WinStep::Done(Ok(()))
            },
        }
    }

    /// Starts listing a directory behind `marker`. `files` is what the server sent
    /// at `now`, with `None` within for a failure, which lists nothing.
    pub fn read_directory(
        &self,
        context: u64,
        marker: Option<Vec<u16>>,
        files: Option<Option<Vec<FileInfo>>>,
        now: u64,
    ) -> (step: WinStep<DirScan>)
        ensures
            ({
                let v = self.model();
                let dir = if context == WINFSP_ROOT_ID {
                    Seq::empty()
                } else {
                    v.paths[context]
                };
                if context != WINFSP_ROOT_ID && !v.paths.contains_key(context) {
                    step == WinStep::<DirScan>::Done(Err(STATUS_NO_SUCH_FILE))
                } else {
                    match files {
                        None => asks(
                            step,
                            joined_url(self.server_url@, "/list/"@ + dir),
                            Method::Get,
                            None,
                            BodyView::Empty,
                            STATUS_NO_SUCH_FILE,
                        ),
                        Some(None) => step matches WinStep::Done(Ok(s)) && s.context == context
                            && s.path@ == dir && s.marker == marker && s.files@.len() == 0
                            && s.next == 0,
                        Some(Some(all)) => {
                            &&& step matches WinStep::Done(Ok(s))
                            &&& s.context == context
                            &&& s.path@ == dir
                            &&& s.marker == marker
                            &&& s.next == 0
                            &&& exists|here: FileInfo, up: FileInfo|
                                s.files@ == #[trigger] sorted(all@.push(here).push(up)) && is_dots(
                                    here,
                                    "."@,
                                    now,
                                ) && is_dots(up, ".."@, now)
                        },
                    }
                }
            }),
            step matches WinStep::Done(Ok(s)) ==> s.context == context && s.marker == marker && s.next == 0,
            step matches WinStep::Done(Ok(s)) ==> (files matches Some(Some(all)) ==> s.files@.len()
                == all@.len() + 2 && forall|i: int|
                0 <= i < all@.len() ==> s.files@.contains(#[trigger] all@[i])),
            step matches WinStep::Done(Ok(s)) ==> forall|i: int, j: int|
                0 <= i < j < s.files@.len() ==> text_le(
                    (#[trigger] s.files@[i]).name@,
                    (#[trigger] s.files@[j]).name@,
                ),
            step matches WinStep::Ask(q) ==> files is None && q.method == Method::Get && q.body is Empty,
            step matches WinStep::Ask(q) ==> (context == 1 ==> joined_url(self.server_url@, "/list/"@)
                == Some(q.url@)) && (context != 1 ==> joined_url(
                self.server_url@,
                "/list/"@ + self.model().paths[context],
            ) == Some(q.url@)),
    {
        assert("/list/"@ + Seq::<char>::empty() =~= "/list/"@);
        let path = if context == WINFSP_ROOT_ID {
            String::new()
        } else {
            match self.path_for(context) {
                Some(p) => p,
                None => {
                    return WinStep::Done(Err(STATUS_NO_SUCH_FILE));
                },
            }
        };
        match files {
            None => self.request(
                Method::Get,
                "/list/",
                path.as_str(),
                None,
                Body::Empty,
                STATUS_NO_SUCH_FILE,
            ),
            Some(None) => WinStep::Done(
                Ok(DirScan { context, path, marker, files: Vec::new(), next: 0 }),
            ),
            Some(Some(all)) => {
                let mut entries = all;
                let here = dots(".", now);
                let up = dots("..", now);
                let ghost g = sorted(all@.push(here).push(up));
                entries.push(here);
                entries.push(up);
                let files = sort_by_name(&entries);
                assert(files@ == g);
                proof {
                    law_listed_all(all@, here, up);
                }
                WinStep::Done(Ok(DirScan { context, path, marker, files, next: 0 }))
            },
        }
    }

    /// The next entry of a listing, if there is one. An entry that has no number
    /// yet gets one.
    pub fn next_entry(&mut self, scan: &mut DirScan) -> (r: Option<ListedFile>)
        requires
            old(self).wf(),
            old(self).model().next < u64::MAX,
            ({
                let k = next_listed(
                    old(scan).files@,
                    old(scan).next as int,
                    units_in(old(scan).marker),
                );
                k < old(scan).files@.len() ==> tellable(old(scan).files@[k])
            }),
        ensures
            final(self).wf(),
            final(self).server_url@ == old(self).server_url@,
            final(scan).files@ == old(scan).files@,
            final(scan).context == old(scan).context,
            final(scan).path@ == old(scan).path@,
            final(scan).marker == old(scan).marker,
            ({
                let v = old(self).model();
                let k = next_listed(
                    old(scan).files@,
                    old(scan).next as int,
                    units_in(old(scan).marker),
                );
                if k >= old(scan).files@.len() {
                    r is None && final(scan).next >= old(scan).files@.len() && final(self).model()
                        == v
                } else {
                    let f = old(scan).files@[k];
                    let dir = old(scan).path@;
                    &&& final(scan).next == k + 1
                    &&& r matches Some(l)
                    &&& l.name@ == f.name@
                    &&& l.info == told(entry_number(v, old(scan).context, dir, f), f)
                    &&& final(self).model() == after_entry(v, dir, f)
                }
            }),
            r matches Some(l) ==> {
                let k = final(scan).next - 1;
                &&& old(scan).next <= k < old(scan).files@.len()
                &&& l.name@ == old(scan).files@[k].name@
                &&& l.info.file_size == old(scan).files@[k].size
                &&& l.info.file_attributes == 0x10 <==> old(scan).files@[k].file_type@ == "dir"@
                &&& l.info.last_write_time == 116_444_736_000_000_000 + 10_000_000 * old(scan).files@[k].timestamp
                &&& wide_units(l.name@) is Some
                &&& old(scan).marker matches Some(m) ==> !units_le(wide_units(l.name@)->Some_0, m@)
            },
    {
        proof {
            law_next_listed(scan.files@, scan.next as int, units_in(scan.marker));
        }
        let ghost start = scan.next as int;
        let ghost files = scan.files@;
        let ghost marker = units_in(scan.marker);
        let n: usize = scan.files.len();
        let mut k: usize = scan.next;
        let mut found = false;
        while k < n && !found
            invariant
                n == scan.files@.len(),
                scan.files@ == files,
                scan.marker == old(scan).marker,
                units_in(scan.marker) == marker,
                scan.context == old(scan).context,
                scan.path@ == old(scan).path@,
                !found ==> next_listed(files, start, marker) == next_listed(
                    files,
                    k as int,
                    marker,
                ),
                found ==> k < n && next_listed(files, start, marker) == k,
            decreases
                    n - k,
                    (if found {
                        0int
                    } else {
                        1int
                    }),
        {
            let skip = match wide(scan.files[k].name.as_str()) {
                None => true,
                Some(units) => match &scan.marker {
                    Some(m) => units_ordered(&units, m),
                    None => false,
                },
            };
            if skip {
                k = k + 1;
            } else {
                found = true;
            }
        }
        if !found {
            scan.next = k;
            return None;
        }
        scan.next = k + 1;
        let f = scan.files[k].clone();
        let name = f.name.clone();
        assert(tellable(files[k as int]));
        if same_text(name.as_str(), ".") {
            return Some(ListedFile { name, info: create_file_info(scan.context, &f) });
        }
        if same_text(name.as_str(), "..") {
            return Some(ListedFile { name, info: create_file_info(WINFSP_ROOT_ID, &f) });
        }
        let path = if scan.path.as_str().unicode_len() == 0 {
            name.clone()
        } else {
            let mut p = scan.path.clone();
            p.append("/");
            p.append(name.as_str());
            p
        };
        let held: Option<u64> = match self.metadata_cache.get(path.as_str()) {
            Some(known) => Some(known.0),
            None => None,
        };
        match held {
            Some(ino) => Some(ListedFile { name, info: create_file_info(ino, &f) }),
            None => {
                let copy = f.clone();
                let ino: u64 = self.take_in(path.as_str(), copy);
                Some(ListedFile { name, info: create_file_info(ino, &f) })
            },
        }
    }
}

/// The step of making a file or a directory.
pub open spec fn making(
    before: WinFs,
    after: WinFs,
    file_name: Seq<char>,
    access: u32,
    attributes: u32,
    system: bool,
    made: Option<bool>,
    now: u64,
    step: WinStep<u64>,
) -> bool {
    let v = before.model();
    let path = bare_path(file_name);
    let is_dir = attributes & FILE_ATTRIBUTE_DIRECTORY != 0;
    if path.len() == 0 {
        step == WinStep::<u64>::Done(Err(STATUS_ACCESS_DENIED)) && after.model() == v
    } else if !writes(access) || system || access & DELETE != 0 {
        step == WinStep::<u64>::Done(Err(STATUS_NO_SUCH_FILE)) && after.model() == v
    } else {
        match made {
            None => after.model() == v && if is_dir {
                asks(
                    step,
                    joined_url(before.server_url@, "/mkdir/"@ + path),
                    Method::Post,
                    None,
                    BodyView::Empty,
                    STATUS_ACCESS_DENIED,
                )
            } else {
                asks(
                    step,
                    joined_url(before.server_url@, "/files/"@ + path),
                    Method::Put,
                    Some("text/plain"@),
                    BodyView::Bytes(Seq::empty()),
                    STATUS_ACCESS_DENIED,
                )
            },
            Some(false) => step == WinStep::<u64>::Done(Err(STATUS_ACCESS_DENIED)) && after.model()
                == v,
            Some(true) => {
                &&& step == WinStep::Done(Ok(v.next as u64))
                &&& exists|f: FileInfo|
                    after.model() == #[trigger] admitted(v, path, f) && fresh(
                        f,
                        path,
                        is_dir,
                        now,
                    )
            },
        }
    }
}

/// The volume once a file of which something is remembered has another size.
pub open spec fn resized(v: VolumeView, path: Seq<char>, size: u64) -> VolumeView {
    if v.known.contains_key(path) {
        let (ino, f) = v.known[path];
        VolumeView { known: v.known.insert(path, (ino, FileInfo { size, ..f })), ..v }
    } else {
        v
    }
}

/// Different paths of which something is remembered have different numbers, and
/// a number stands for the path that has it.
pub proof fn law_volume_numbers(v: VolumeView, p: Seq<char>, q: Seq<char>)
    requires
        sound(v),
        v.known.contains_key(p),
        v.known.contains_key(q),
    ensures
        v.paths[v.known[p].0] == p,
        p != q ==> v.known[p].0 != v.known[q].0,
{
}

/// The volume once the entries of the directory `dir` have numbers, one after
/// another.
pub open spec fn after_entries(v: VolumeView, dir: Seq<char>, files: Seq<FileInfo>) -> VolumeView
    decreases files.len(),
{
    if files.len() == 0 {
        v
    } else {
        after_entry(after_entries(v, dir, files.drop_last()), dir, files.last())
    }
}

/// The numbers that the entries of the directory `dir` get, one after another.
pub open spec fn entry_numbers(
    v: VolumeView,
    context: u64,
    dir: Seq<char>,
    files: Seq<FileInfo>,
) -> Seq<u64> {
    Seq::new(
        files.len(),
        |i: int| entry_number(after_entries(v, dir, files.take(i)), context, dir, files[i]),
    )
}

/// Giving numbers out takes none away.
proof fn lemma_after_entries(v: VolumeView, dir: Seq<char>, files: Seq<FileInfo>)
    requires
        sound(v),
        v.next + files.len() <= u64::MAX,
    ensures
        sound(after_entries(v, dir, files)),
        v.next <= after_entries(v, dir, files).next <= v.next + files.len(),
        forall|p: Seq<char>| #[trigger]
            v.known.contains_key(p) ==> after_entries(v, dir, files).known.contains_key(p)
                && after_entries(v, dir, files).known[p] == v.known[p],
        forall|i: int|
            0 <= i < files.len() && !dotted((#[trigger] files[i]).name@) ==> after_entries(
                v,
                dir,
                files,
            ).known.contains_key(entry_path(dir, files[i].name@)),
    decreases files.len(),
{
    if files.len() > 0 {
        let head = files.drop_last();
        lemma_after_entries(v, dir, head);
        assert forall|i: int|
            0 <= i < files.len() && !dotted((#[trigger] files[i]).name@) implies after_entries(
            v,
            dir,
            files,
        ).known.contains_key(entry_path(dir, files[i].name@)) by {
            if i < head.len() {
                assert(head[i] == files[i]);
            }
        }
    }
}

/// What comes behind the first `i` entries changes nothing of their numbers.
proof fn lemma_after_more(v: VolumeView, dir: Seq<char>, files: Seq<FileInfo>, i: int)
    requires
        sound(v),
        v.next + files.len() <= u64::MAX,
        0 <= i <= files.len(),
    ensures
        sound(after_entries(v, dir, files.take(i))),
        forall|p: Seq<char>| #[trigger]
            after_entries(v, dir, files.take(i)).known.contains_key(p) ==> after_entries(
                v,
                dir,
                files,
            ).known.contains_key(p) && after_entries(v, dir, files).known[p] == after_entries(
                v,
                dir,
                files.take(i),
            ).known[p],
    decreases files.len(),
{
    if i == files.len() {
        assert(files.take(i) =~= files);
        lemma_after_entries(v, dir, files);
    } else {
        let head = files.drop_last();
        lemma_after_more(v, dir, head, i);
        assert(head.take(i) =~= files.take(i));
        lemma_after_entries(v, dir, head);
    }
}

/// Over a listing, in however many pages it is read, `.` has the number of the
/// directory and `..` that of the root; an entry of which something is
/// remembered keeps its number; and entries of different names have different
/// numbers.
pub proof fn law_listing_numbers(
    v: VolumeView,
    context: u64,
    dir: Seq<char>,
    files: Seq<FileInfo>,
    i: int,
    j: int,
)
    requires
        sound(v),
        v.next + files.len() <= u64::MAX,
        0 <= i < files.len(),
        0 <= j < files.len(),
    ensures
        files[i].name@ == "."@ ==> entry_numbers(v, context, dir, files)[i] == context,
        files[i].name@ == ".."@ ==> entry_numbers(v, context, dir, files)[i] == WINFSP_ROOT_ID,
        !dotted(files[i].name@) && v.known.contains_key(entry_path(dir, files[i].name@))
            ==> entry_numbers(v, context, dir, files)[i] == v.known[entry_path(
            dir,
            files[i].name@,
        )].0,
        !dotted(files[i].name@) && !dotted(files[j].name@) ==> (files[i].name@ == files[j].name@
            <==> entry_numbers(v, context, dir, files)[i] == entry_numbers(
            v,
            context,
            dir,
            files,
        )[j]),
{
    reveal_strlit(".");
    reveal_strlit("..");
    let numbers = entry_numbers(v, context, dir, files);
    let end = after_entries(v, dir, files);
    lemma_after_entries(v, dir, files);
    lemma_after_entries(v, dir, files.take(i));
    lemma_entry_number(v, context, dir, files, i);
    lemma_entry_number(v, context, dir, files, j);
    if !dotted(files[i].name@) && !dotted(files[j].name@) {
        let p = entry_path(dir, files[i].name@);
        let q = entry_path(dir, files[j].name@);
        law_volume_numbers(end, p, q);
        if p == q {
            let skipped = if dir.len() == 0 {
                0
            } else {
                (dir + "/"@).len() as int
            };
            assert(p.skip(skipped) =~= files[i].name@);
            assert(q.skip(skipped) =~= files[j].name@);
        }
    }
}

/// The number that an entry gets is the one that is remembered of it in the end.
proof fn lemma_entry_number(
    v: VolumeView,
    context: u64,
    dir: Seq<char>,
    files: Seq<FileInfo>,
    i: int,
)
    requires
        sound(v),
        v.next + files.len() <= u64::MAX,
        0 <= i < files.len(),
    ensures
        !dotted(files[i].name@) ==> {
            let end = after_entries(v, dir, files);
            let path = entry_path(dir, files[i].name@);
            end.known.contains_key(path) && end.known[path].0 == entry_numbers(
                v,
                context,
                dir,
                files,
            )[i]
        },
{
    let before = after_entries(v, dir, files.take(i));
    let then = after_entries(v, dir, files.take(i + 1));
    assert(files.take(i + 1).drop_last() =~= files.take(i));
    lemma_after_more(v, dir, files, i + 1);
    lemma_after_entries(v, dir, files.take(i));
    if !dotted(files[i].name@) {
        let path = entry_path(dir, files[i].name@);
        assert(then == after_entry(before, dir, files[i]));
        assert(then.known.contains_key(path));
    }
}

/// What is listed behind `marker`, from the file number `from` on.
pub open spec fn listing(files: Seq<FileInfo>, from: int, marker: Option<Seq<u16>>) -> Seq<FileInfo>
    decreases files.len() - from,
{
    let k = next_listed(files, from, marker);
    if from <= k < files.len() {
        seq![files[k]] + listing(files, k + 1, marker)
    } else {
        Seq::empty()
    }
}

/// What is listed in pages that have room for so many entries each, every page
/// behind the last name of the one before. A page without entries is the last
/// one.
pub open spec fn pages(files: Seq<FileInfo>, marker: Option<Seq<u16>>, rooms: Seq<nat>) -> Seq<
    FileInfo,
>
    decreases rooms.len(),
{
    if rooms.len() == 0 {
        Seq::empty()
    } else {
        let all = listing(files, 0, marker);
        let page = if rooms[0] < all.len() {
            all.take(rooms[0] as int)
        } else {
            all
        };
        if page.len() == 0 {
            page
        } else {
            page + pages(files, wide_units(page.last().name@), rooms.drop_first())
        }
    }
}

/// For how many entries there is room in all.
pub open spec fn total(rooms: Seq<nat>) -> nat
    decreases rooms.len(),
{
    if rooms.len() == 0 {
        0
    } else {
        rooms[0] + total(rooms.drop_first())
    }
}

/// A text each of whose characters is one unit, and none the terminator.
pub open spec fn single_units(s: Seq<char>) -> bool {
    forall|i: int| 0 <= i < s.len() ==> 0 < (#[trigger] s[i] as int) < 0x10000
}

/// The units of such a text are its characters.
proof fn lemma_single_units(s: Seq<char>)
    requires
        single_units(s),
    ensures
        utf16(s).len() == s.len(),
        forall|i: int| 0 <= i < s.len() ==> #[trigger] utf16(s)[i] == s[i] as int,
        wide_units(s) == Some(utf16(s)),
    decreases s.len(),
{
    if s.len() > 0 {
        let head = s.drop_last();
        assert forall|i: int| 0 <= i < head.len() implies 0 < (#[trigger] head[i] as int)
            < 0x10000 by {
            assert(s[i] == head[i]);
        }
        lemma_single_units(head);
        assert(0 < (s[s.len() - 1] as int) < 0x10000);
        assert forall|i: int| 0 <= i < s.len() implies #[trigger] utf16(s)[i] == s[i] as int by {
            if i < head.len() {
                assert(utf16(s)[i] == utf16(head)[i]);
                assert(head[i] == s[i]);
            }
        }
    }
    let units = utf16(s);
    if units.contains(0) {
        let i = choose|i: int| 0 <= i < units.len() && units[i] == 0;
        assert(s[i] as int == 0);
    }
}

/// Units are in the order of the characters that they are.
proof fn lemma_same_order(a: Seq<char>, b: Seq<char>, x: Seq<u16>, y: Seq<u16>)
    requires
        x.len() == a.len(),
        y.len() == b.len(),
        forall|i: int| 0 <= i < a.len() ==> #[trigger] x[i] == a[i] as int,
        forall|i: int| 0 <= i < b.len() ==> #[trigger] y[i] == b[i] as int,
    ensures
        units_le(x, y) == text_le(a, b),
    decreases a.len(),
{
    if a.len() > 0 && b.len() > 0 {
        assert(x[0] == a[0] as int && y[0] == b[0] as int);
        let (a2, b2, x2, y2) = (a.drop_first(), b.drop_first(), x.drop_first(), y.drop_first());
        assert forall|i: int| 0 <= i < a2.len() implies #[trigger] x2[i] == a2[i] as int by {
            assert(x[i + 1] == a[i + 1] as int);
        }
        assert forall|i: int| 0 <= i < b2.len() implies #[trigger] y2[i] == b2[i] as int by {
            assert(y[i + 1] == b[i + 1] as int);
        }
        lemma_same_order(a2, b2, x2, y2);
    }
}

/// The order of texts is antisymmetric.
proof fn lemma_text_le_antisymmetric(a: Seq<char>, b: Seq<char>)
    requires
        text_le(a, b),
        text_le(b, a),
    ensures
        a == b,
    decreases a.len(),
{
    if a.len() > 0 && b.len() > 0 && a[0] == b[0] {
        lemma_text_le_antisymmetric(a.drop_first(), b.drop_first());
        assert(a =~= seq![a[0]] + a.drop_first());
        assert(b =~= seq![b[0]] + b.drop_first());
    }
}

/// The files are in the strict order of their names, each of which is a text of
/// single units.
pub open spec fn in_strict_order(files: Seq<FileInfo>) -> bool {
    &&& forall|i: int| 0 <= i < files.len() ==> single_units((#[trigger] files[i]).name@)
    &&& forall|i: int, j: int|
        0 <= i < j < files.len() ==> text_le(
            (#[trigger] files[i]).name@,
            (#[trigger] files[j]).name@,
        ) && files[i].name@ != files[j].name@
}

/// The marker that stands for the first `m` files.
spec fn marker_at(files: Seq<FileInfo>, m: int) -> Option<Seq<u16>> {
    if m == 0 {
        None
    } else {
        wide_units(files[m - 1].name@)
    }
}

/// Behind the name of a file just the files behind it are listed.
proof fn lemma_left_out(files: Seq<FileInfo>, m: int, i: int)
    requires
        in_strict_order(files),
        0 <= m <= files.len(),
        0 <= i < files.len(),
    ensures
        left_out(files[i], marker_at(files, m)) == (i < m),
{
    let name = files[i].name@;
    lemma_single_units(name);
    if m > 0 {
        let mark = files[m - 1].name@;
        assert(single_units(mark));
        lemma_single_units(mark);
        lemma_same_order(name, mark, utf16(name), utf16(mark));
        lemma_text_le_total(name, name);
        if i > m - 1 {
            assert(text_le(files[m - 1].name@, files[i].name@));
            if text_le(name, mark) {
                lemma_text_le_antisymmetric(name, mark);
            }
        }
    }
}

/// What is listed from a file on, behind the name of a file.
proof fn lemma_listing(files: Seq<FileInfo>, m: int, from: int)
    requires
        in_strict_order(files),
        0 <= m <= files.len(),
        0 <= from <= files.len(),
    ensures
        listing(files, from, marker_at(files, m)) == files.skip(
            if from < m {
                m
            } else {
                from
            },
        ),
        next_listed(files, from, marker_at(files, m)) == (if from < m {
            m
        } else {
            from
        }),
    decreases files.len() - from,
{
    let marker = marker_at(files, m);
    if from < files.len() {
        lemma_left_out(files, m, from);
        lemma_listing(files, m, from + 1);
        if from >= m {
            assert(seq![files[from]] + files.skip(from + 1) =~= files.skip(from));
        } else {
            let k = next_listed(files, from, marker);
            assert(k == next_listed(files, from + 1, marker));
            if k < files.len() {
                assert(listing(files, from, marker) == listing(files, from + 1, marker));
            }
        }
    } else {
        assert(files.skip(from) =~= Seq::<FileInfo>::empty());
        assert(listing(files, from, marker) =~= Seq::<FileInfo>::empty());
    }
}

/// Pages behind the first `m` files hold the files from there on, in order.
proof fn lemma_pages(files: Seq<FileInfo>, m: int, rooms: Seq<nat>)
    requires
        in_strict_order(files),
        0 <= m <= files.len(),
        forall|i: int| 0 <= i < rooms.len() ==> #[trigger] rooms[i] > 0,
    ensures
        pages(files, marker_at(files, m), rooms) == files.subrange(
            m,
            if m + total(rooms) < files.len() {
                (m + total(rooms)) as int
            } else {
                files.len() as int
            },
        ),
    decreases rooms.len(),
{
    if rooms.len() == 0 {
        assert(files.subrange(m, m) =~= Seq::<FileInfo>::empty());
    } else {
        let marker = marker_at(files, m);
        lemma_listing(files, m, 0);
        let all = listing(files, 0, marker);
        assert(all == files.skip(m));
        let n = if rooms[0] < all.len() {
            rooms[0] as int
        } else {
            all.len() as int
        };
        let page = all.take(n);
        assert(all.take(all.len() as int) =~= all);
        if n == 0 {
            assert(page =~= files.subrange(m, files.len() as int));
        } else {
            let later = rooms.drop_first();
            assert forall|i: int| 0 <= i < later.len() implies #[trigger] later[i] > 0 by {
                assert(rooms[i + 1] > 0);
            }
            assert(page.last() == files[m + n - 1]);
            lemma_pages(files, m + n, later);
            let end = if m + total(rooms) < files.len() {
                (m + total(rooms)) as int
            } else {
                files.len() as int
            };
            assert(pages(files, marker, rooms) == page + pages(
                files,
                marker_at(files, m + n),
                later,
            ));
            assert(page + pages(files, marker_at(files, m + n), later) =~= files.subrange(m, end));
        }
    }
}

/// Sorting files of different names leaves their names different.
proof fn lemma_sorted_distinct(files: Seq<FileInfo>)
    requires
        forall|i: int| 0 <= i < files.len() ==> single_units((#[trigger] files[i]).name@),
        forall|i: int, j: int|
            0 <= i < j < files.len() ==> (#[trigger] files[i]).name@ != (
            #[trigger] files[j]).name@,
    ensures
        in_strict_order(sorted(files)),
    decreases files.len(),
{
    law_sorted(files);
    if files.len() > 0 {
        let head = files.drop_last();
        let last = files.last();
        let before = sorted(head);
        let k = place_for(before, last.name@);
        lemma_place(before, last.name@);
        assert forall|i: int| 0 <= i < head.len() implies single_units(
            (#[trigger] head[i]).name@,
        ) by {
            assert(head[i] == files[i]);
        }
        assert forall|i: int, j: int| 0 <= i < j < head.len() implies (
        #[trigger] head[i]).name@ != (#[trigger] head[j]).name@ by {
            assert(head[i] == files[i] && head[j] == files[j]);
        }
        lemma_sorted_distinct(head);
        law_sorted(head);
        assert forall|i: int| 0 <= i < before.len() implies (#[trigger] before[i]).name@
            != last.name@ by {
            before.to_multiset_ensures();
            head.to_multiset_ensures();
            assert(before.contains(before[i]));
            assert(head.to_multiset().count(before[i]) > 0);
            assert(head.contains(before[i]));
            let h = choose|h: int| 0 <= h < head.len() && head[h] == before[i];
            assert(files[h].name@ != files[files.len() - 1].name@);
        }
        let all = sorted(files);
        assert(all == before.insert(k, last));
        assert(single_units(files[files.len() - 1].name@));
        assert forall|i: int| 0 <= i < all.len() implies single_units(
            (#[trigger] all[i]).name@,
        ) by {
            if i < k {
                assert(all[i] == before[i]);
            } else if i > k {
                assert(all[i] == before[i - 1]);
            }
        }
        assert forall|i: int, j: int| 0 <= i < j < all.len() implies text_le(
            (#[trigger] all[i]).name@,
            (#[trigger] all[j]).name@,
        ) && all[i].name@ != all[j].name@ by {
            if i < k && j < k {
                assert(all[i] == before[i] && all[j] == before[j]);
            } else if i < k && j > k {
                assert(all[i] == before[i] && all[j] == before[j - 1]);
            } else if i > k {
                assert(all[i] == before[i - 1] && all[j] == before[j - 1]);
            } else if i == k && j > k {
                assert(all[j] == before[j - 1]);
            } else {
                assert(all[i] == before[i]);
            }
        }
    }
}

/// A directory that is listed in pages, each with room for an entry at least and
/// each behind the last name of the one before, is listed in the order of its
/// names, every entry once: the pages together hold as many of the entries, from
/// the first one on, as there is room for. The entries have different names,
/// each of whose characters is one unit.
pub proof fn law_pages(files: Seq<FileInfo>, rooms: Seq<nat>)
    requires
        forall|i: int| 0 <= i < files.len() ==> single_units((#[trigger] files[i]).name@),
        forall|i: int, j: int|
            0 <= i < j < files.len() ==> (#[trigger] files[i]).name@ != (
            #[trigger] files[j]).name@,
        forall|i: int| 0 <= i < rooms.len() ==> #[trigger] rooms[i] > 0,
    ensures
        pages(sorted(files), None, rooms) == sorted(files).take(
            if total(rooms) < files.len() {
                total(rooms) as int
            } else {
                files.len() as int
            },
        ),
        total(rooms) >= files.len() ==> pages(sorted(files), None, rooms) == sorted(files),
        in_strict_order(sorted(files)),
        sorted(files).to_multiset() == files.to_multiset(),
{
    law_sorted(files);
    files.to_multiset_ensures();
    sorted(files).to_multiset_ensures();
    lemma_sorted_distinct(files);
    lemma_pages(sorted(files), 0, rooms);
    assert(sorted(files).len() == files.len());
    let n = if total(rooms) < files.len() {
        total(rooms) as int
    } else {
        files.len() as int
    };
    assert(sorted(files).subrange(0, n) =~= sorted(files).take(n));
    assert(sorted(files).take(files.len() as int) =~= sorted(files));
}

/// What calls of `next_entry` give, one after the other: the volume after so many
/// of them, how many files were looked at, and the names and numbers of the
/// entries that came out. `from` files were looked at before.
pub open spec fn drawn(
    v: VolumeView,
    context: u64,
    dir: Seq<char>,
    files: Seq<FileInfo>,
    from: int,
    marker: Option<Seq<u16>>,
    calls: nat,
) -> (VolumeView, int, Seq<(Seq<char>, u64)>)
    decreases calls,
{
    if calls == 0 {
        (v, from, Seq::empty())
    } else {
        let (w, at, got) = drawn(v, context, dir, files, from, marker, (calls - 1) as nat);
        let k = next_listed(files, at, marker);
        if k >= files.len() {
            (w, files.len() as int, got)
        } else {
            let f = files[k];
            (
                after_entry(w, dir, f),
                k + 1,
                got.push((f.name@, entry_number(w, context, dir, f))),
            )
        }
    }
}

/// A page of a listing: the files as they were sorted for it, how many entries it
/// had room for, and whether one more was tried that found no room.
pub struct DirPage {
    pub files: Seq<FileInfo>,
    pub room: nat,
    pub over: bool,
}

/// The volume once a directory was read in pages, the first of them behind
/// `marker` and each of the others behind the last name of the one before, and
/// the names and numbers of the entries in all of them.
pub open spec fn read_in_pages(
    v: VolumeView,
    context: u64,
    dir: Seq<char>,
    marker: Option<Seq<u16>>,
    pages: Seq<DirPage>,
) -> (VolumeView, Seq<(Seq<char>, u64)>)
    decreases pages.len(),
{
    if pages.len() == 0 {
        (v, Seq::empty())
    } else {
        let page = pages[0];
        let got = drawn(v, context, dir, page.files, 0, marker, page.room).2;
        let tried = if page.over {
            page.room + 1
        } else {
            page.room
        };
        let after = drawn(v, context, dir, page.files, 0, marker, tried).0;
        let last = if got.len() > 0 {
            wide_units(got.last().0)
        } else {
            marker
        };
        let (end, more) = read_in_pages(after, context, dir, last, pages.drop_first());
        (end, got + more)
    }
}

/// The entries of a directory as they are listed: those that the server sent and
/// the two that every directory has, in the order of their names.
pub open spec fn is_listing(files: Seq<FileInfo>, sent: Seq<FileInfo>) -> bool {
    exists|here: FileInfo, up: FileInfo, now: u64|
        files == #[trigger] sorted(sent.push(here).push(up)) && #[trigger] is_dots(here, "."@, now)
            && #[trigger] is_dots(up, ".."@, now)
}

/// For how many entries the pages have room in all.
pub open spec fn room_in(pages: Seq<DirPage>) -> nat
    decreases pages.len(),
{
    if pages.len() == 0 {
        0
    } else {
        pages[0].room + room_in(pages.drop_first())
    }
}

/// The files have the same names, one for one.
pub open spec fn same_names(a: Seq<FileInfo>, b: Seq<FileInfo>) -> bool {
    &&& a.len() == b.len()
    &&& forall|i: int| 0 <= i < a.len() ==> (#[trigger] a[i]).name@ == b[i].name@
}

/// The place for a name depends on the names alone.
proof fn lemma_place_names(a: Seq<FileInfo>, b: Seq<FileInfo>, name: Seq<char>)
    requires
        same_names(a, b),
    ensures
        place_for(a, name) == place_for(b, name),
    decreases a.len(),
{
    if a.len() > 0 {
        assert(a[a.len() - 1].name@ == b[b.len() - 1].name@);
        assert(same_names(a.drop_last(), b.drop_last())) by {
            assert forall|i: int| 0 <= i < a.drop_last().len() implies (
            #[trigger] a.drop_last()[i]).name@ == b.drop_last()[i].name@ by {
                assert(a[i].name@ == b[i].name@);
            }
        }
        lemma_place_names(a.drop_last(), b.drop_last(), name);
    }
}

/// The order of files depends on the names alone.
proof fn lemma_sorted_names(a: Seq<FileInfo>, b: Seq<FileInfo>)
    requires
        same_names(a, b),
    ensures
        same_names(sorted(a), sorted(b)),
    decreases a.len(),
{
    if a.len() > 0 {
        let x = sorted(a.drop_last());
        let y = sorted(b.drop_last());
        assert(a[a.len() - 1].name@ == b[b.len() - 1].name@);
        assert(same_names(a.drop_last(), b.drop_last())) by {
            assert forall|i: int| 0 <= i < a.drop_last().len() implies (
            #[trigger] a.drop_last()[i]).name@ == b.drop_last()[i].name@ by {
                assert(a[i].name@ == b[i].name@);
            }
        }
        lemma_sorted_names(a.drop_last(), b.drop_last());
        let name = a.last().name@;
        lemma_place_names(x, y, name);
        lemma_place(x, name);
        let k = place_for(x, name);
        assert forall|i: int| 0 <= i < sorted(a).len() implies (#[trigger] sorted(a)[i]).name@
            == sorted(b)[i].name@ by {
            if i < k {
                assert(x[i].name@ == y[i].name@);
            } else if i > k {
                assert(x[i - 1].name@ == y[i - 1].name@);
            }
        }
    }
}

/// Giving some entries numbers and then others is giving all of them numbers.
proof fn lemma_after_split(v: VolumeView, dir: Seq<char>, a: Seq<FileInfo>, b: Seq<FileInfo>)
    ensures
        after_entries(v, dir, a + b) == after_entries(after_entries(v, dir, a), dir, b),
    decreases b.len(),
{
    if b.len() == 0 {
        assert(a + b =~= a);
    } else {
        assert((a + b).drop_last() =~= a + b.drop_last());
        assert((a + b).last() == b.last());
        lemma_after_split(v, dir, a, b.drop_last());
    }
}

/// Behind the first `m` files, so many calls give the files from there on.
proof fn lemma_drawn(
    v: VolumeView,
    context: u64,
    dir: Seq<char>,
    files: Seq<FileInfo>,
    m: int,
    calls: nat,
)
    requires
        in_strict_order(files),
        0 <= m <= files.len(),
    ensures
        ({
            let (w, at, got) = drawn(v, context, dir, files, 0, marker_at(files, m), calls);
            let end = if m + calls < files.len() {
                m + calls
            } else {
                files.len() as int
            };
            let page = files.subrange(m, end);
            &&& at == (if calls == 0 {
                0
            } else {
                end
            })
            &&& w == after_entries(v, dir, page)
            &&& got.len() == page.len()
            &&& forall|i: int| 0 <= i < page.len() ==> (#[trigger] got[i]).0 == page[i].name@
            &&& forall|i: int|
                0 <= i < page.len() ==> (#[trigger] got[i]).1 == entry_numbers(
                    v,
                    context,
                    dir,
                    page,
                )[i]
        }),
    decreases calls,
{
    let marker = marker_at(files, m);
    if calls == 0 {
        assert(files.subrange(m, m) =~= Seq::<FileInfo>::empty());
    } else {
        let less = (calls - 1) as nat;
        lemma_drawn(v, context, dir, files, m, less);
        let (w, at, got) = drawn(v, context, dir, files, 0, marker, less);
        lemma_listing(files, m, at);
        let mid = if m + less < files.len() {
            m + less
        } else {
            files.len() as int
        };
        let before = files.subrange(m, mid);
        if mid < files.len() {
            let page = files.subrange(m, mid + 1);
            let f = files[mid];
            assert(next_listed(files, at, marker) == mid);
            assert(page.drop_last() =~= before);
            assert(page.last() == f);
            let now = drawn(v, context, dir, files, 0, marker, calls).2;
            assert(now == got.push((f.name@, entry_number(w, context, dir, f))));
            assert forall|i: int| 0 <= i < page.len() implies (#[trigger] now[i]).0
                == page[i].name@ by {
                if i < before.len() {
                    assert(now[i] == got[i]);
                    assert(before[i] == page[i]);
                }
            }
            assert forall|i: int| 0 <= i < page.len() implies (#[trigger] now[i]).1
                == entry_numbers(v, context, dir, page)[i] by {
                assert(page.take(i) =~= before.take(i));
                if i < before.len() {
                    assert(now[i] == got[i]);
                    assert(got[i].1 == entry_numbers(v, context, dir, before)[i]);
                    assert(before[i] == page[i]);
                } else {
                    assert(before.take(i) =~= before);
                }
            }
        }
    }
}

/// The volume goes from `v` to `w` with every number as it was, and the numbers of
/// the entries `got` are remembered.
spec fn numbers_remembered(
    v: VolumeView,
    w: VolumeView,
    context: u64,
    dir: Seq<char>,
    got: Seq<(Seq<char>, u64)>,
) -> bool {
    &&& sound(w)
    &&& forall|p: Seq<char>| #[trigger]
        v.known.contains_key(p) ==> w.known.contains_key(p) && w.known[p] == v.known[p]
    &&& forall|i: int|
        0 <= i < got.len() ==> {
            let (name, number) = #[trigger] got[i];
            if name == "."@ {
                number == context
            } else if name == ".."@ {
                number == WINFSP_ROOT_ID
            } else {
                w.known.contains_key(entry_path(dir, name)) && w.known[entry_path(dir, name)].0
                    == number
            }
        }
}

/// What was remembered on the way is remembered in the end.
proof fn lemma_remembered_on(
    v: VolumeView,
    mid: VolumeView,
    w: VolumeView,
    context: u64,
    dir: Seq<char>,
    got: Seq<(Seq<char>, u64)>,
    more: Seq<(Seq<char>, u64)>,
)
    requires
        numbers_remembered(v, mid, context, dir, got),
        numbers_remembered(mid, w, context, dir, more),
    ensures
        numbers_remembered(v, w, context, dir, got + more),
{
    let whole = got + more;
    assert forall|i: int| 0 <= i < whole.len() implies ({
        let (name, number) = #[trigger] whole[i];
        if name == "."@ {
            number == context
        } else if name == ".."@ {
            number == WINFSP_ROOT_ID
        } else {
            w.known.contains_key(entry_path(dir, name)) && w.known[entry_path(dir, name)].0
                == number
        }
    }) by {
        if i < got.len() {
            assert(whole[i] == got[i]);
            let (name, number) = got[i];
            if !dotted(name) {
                assert(mid.known.contains_key(entry_path(dir, name)));
            }
        } else {
            assert(whole[i] == more[i - got.len()]);
        }
    }
}

/// Where a page ends that starts at `m` and holds so many entries.
spec fn page_end(files: Seq<FileInfo>, m: int, room: nat) -> int {
    if m + room < files.len() {
        m + room
    } else {
        files.len() as int
    }
}

/// What reading one page behind the first `m` names gives.
proof fn lemma_one_page(
    v: VolumeView,
    context: u64,
    dir: Seq<char>,
    all: Seq<FileInfo>,
    m: int,
    given: int,
    page: DirPage,
)
    requires
        sound(v),
        in_strict_order(all),
        0 <= m <= given <= all.len(),
        given <= m + 1,
        given > m ==> dotted(all[m].name@) || v.known.contains_key(entry_path(dir, all[m].name@)),
        v.next + (all.len() - given) <= u64::MAX,
        page.room > 0,
        same_names(page.files, all),
    ensures
        ({
            let marker = marker_at(all, m);
            let got = drawn(v, context, dir, page.files, 0, marker, page.room).2;
            let tried = if page.over {
                page.room + 1
            } else {
                page.room
            };
            let after = drawn(v, context, dir, page.files, 0, marker, tried).0;
            let shown = page_end(all, m, page.room);
            let reached = page_end(all, m, tried);
            &&& got.len() == shown - m
            &&& forall|i: int| 0 <= i < got.len() ==> (#[trigger] got[i]).0 == all[m + i].name@
            &&& numbers_remembered(v, after, context, dir, got)
            &&& after.next <= v.next + (reached - given)
            &&& given <= reached
            &&& reached > shown ==> dotted(all[shown].name@) || after.known.contains_key(
                entry_path(dir, all[shown].name@),
            )
            &&& marker_at(all, shown) == (if got.len() > 0 {
                wide_units(got.last().0)
            } else {
                marker
            })
        }),
{
    let files = page.files;
    let marker = marker_at(all, m);
    assert forall|i: int| 0 <= i < files.len() implies single_units((#[trigger] files[i]).name@) by {
        assert(single_units(all[i].name@));
    }
    assert forall|i: int, j: int| 0 <= i < j < files.len() implies text_le(
        (#[trigger] files[i]).name@,
        (#[trigger] files[j]).name@,
    ) && files[i].name@ != files[j].name@ by {
        assert(text_le(all[i].name@, all[j].name@));
    }
    assert(in_strict_order(files));
    if m > 0 {
        assert(files[m - 1].name@ == all[m - 1].name@);
    }
    assert(marker_at(files, m) == marker);
    let tried = if page.over {
        page.room + 1
    } else {
        page.room
    };
    lemma_drawn(v, context, dir, files, m, page.room);
    lemma_drawn(v, context, dir, files, m, tried);
    let shown = page_end(all, m, page.room);
    let reached = page_end(all, m, tried);
    let got = drawn(v, context, dir, files, 0, marker, page.room).2;
    let after = drawn(v, context, dir, files, 0, marker, tried).0;
    let seen = files.subrange(m, shown);
    if given > m {
        assert(files[m].name@ == all[m].name@);
    }
    lemma_numbers_given(v, context, dir, files, m, given, shown, reached);
    if reached > shown {
        assert(files[shown].name@ == all[shown].name@);
    }
    assert forall|i: int| 0 <= i < got.len() implies (#[trigger] got[i]).0 == all[m + i].name@ by {
        assert(got[i].0 == seen[i].name@);
        assert(files[m + i].name@ == all[m + i].name@);
    }
    assert forall|i: int| 0 <= i < got.len() implies ({
        let (name, number) = #[trigger] got[i];
        if name == "."@ {
            number == context
        } else if name == ".."@ {
            number == WINFSP_ROOT_ID
        } else {
            after.known.contains_key(entry_path(dir, name)) && after.known[entry_path(dir, name)].0
                == number
        }
    }) by {
        assert(got[i].1 == entry_numbers(v, context, dir, seen)[i]);
        assert(got[i].0 == seen[i].name@);
    }
    if got.len() > 0 {
        assert(got[got.len() - 1].0 == all[shown - 1].name@);
    }
}

/// Reading on in pages behind the first `m` names gives the names from there on.
proof fn lemma_read_in_pages(
    v: VolumeView,
    context: u64,
    dir: Seq<char>,
    all: Seq<FileInfo>,
    m: int,
    given: int,
    pages: Seq<DirPage>,
)
    requires
        sound(v),
        in_strict_order(all),
        0 <= m <= given <= all.len(),
        given <= m + 1,
        given > m ==> dotted(all[m].name@) || v.known.contains_key(entry_path(dir, all[m].name@)),
        v.next + (all.len() - given) <= u64::MAX,
        forall|i: int|
            0 <= i < pages.len() ==> (#[trigger] pages[i]).room > 0 && same_names(
                pages[i].files,
                all,
            ),
    ensures
        ({
            let (w, got) = read_in_pages(v, context, dir, marker_at(all, m), pages);
            &&& got.len() == page_end(all, m, room_in(pages)) - m
            &&& forall|i: int| 0 <= i < got.len() ==> (#[trigger] got[i]).0 == all[m + i].name@
            &&& numbers_remembered(v, w, context, dir, got)
        }),
    decreases pages.len(),
{
    if pages.len() > 0 {
        let page = pages[0];
        let marker = marker_at(all, m);
        lemma_one_page(v, context, dir, all, m, given, page);
        let tried = if page.over {
            page.room + 1
        } else {
            page.room
        };
        let got = drawn(v, context, dir, page.files, 0, marker, page.room).2;
        let after = drawn(v, context, dir, page.files, 0, marker, tried).0;
        let shown = page_end(all, m, page.room);
        let reached = page_end(all, m, tried);
        let later = pages.drop_first();
        assert forall|i: int| 0 <= i < later.len() implies (#[trigger] later[i]).room > 0
            && same_names(later[i].files, all) by {
            assert(later[i] == pages[i + 1]);
        }
        lemma_read_in_pages(after, context, dir, all, shown, reached, later);
        let (w, more) = read_in_pages(after, context, dir, marker_at(all, shown), later);
        lemma_remembered_on(v, after, w, context, dir, got, more);
        let whole = read_in_pages(v, context, dir, marker, pages).1;
        assert(whole == got + more);
        assert forall|i: int| 0 <= i < whole.len() implies (#[trigger] whole[i]).0
            == all[m + i].name@ by {
            if i < got.len() {
                assert(whole[i] == got[i]);
            } else {
                assert(whole[i] == more[i - got.len()]);
            }
        }
    }
}

/// What a page shows has numbers that are remembered once it was read.
proof fn lemma_numbers_given(
    v: VolumeView,
    context: u64,
    dir: Seq<char>,
    files: Seq<FileInfo>,
    m: int,
    given: int,
    shown: int,
    reached: int,
)
    requires
        sound(v),
        in_strict_order(files),
        0 <= m <= given <= reached <= files.len(),
        m <= shown <= reached,
        given <= m + 1,
        given > m ==> dotted(files[m].name@) || v.known.contains_key(
            entry_path(dir, files[m].name@),
        ),
        v.next + (files.len() - given) <= u64::MAX,
    ensures
        ({
            let seen = files.subrange(m, shown);
            let after = after_entries(v, dir, files.subrange(m, reached));
            &&& sound(after)
            &&& after.next <= v.next + (reached - given)
            &&& reached > shown && !dotted(files[shown].name@) ==> after.known.contains_key(
                entry_path(dir, files[shown].name@),
            )
            &&& forall|p: Seq<char>| #[trigger]
                v.known.contains_key(p) ==> after.known.contains_key(p) && after.known[p]
                    == v.known[p]
            &&& forall|i: int|
                0 <= i < seen.len() ==> {
                    let number = #[trigger] entry_numbers(v, context, dir, seen)[i];
                    let name = seen[i].name@;
                    if name == "."@ {
                        number == context
                    } else if name == ".."@ {
                        number == WINFSP_ROOT_ID
                    } else {
                        after.known.contains_key(entry_path(dir, name)) && after.known[entry_path(
                            dir,
                            name,
                        )].0 == number
                    }
                }
        }),
{
    let seen = files.subrange(m, shown);
    let numbered = files.subrange(m, reached);
    let late = files.subrange(given, reached);
    let one = files.subrange(m, given);
    let shift = given - m;
    let after = after_entries(v, dir, late);
    reveal_with_fuel(after_entries, 3);
    assert(after_entries(v, dir, one) == v) by {
        if given > m {
            assert(one.last() == files[m]);
            assert(one.drop_last() =~= Seq::<FileInfo>::empty());
        }
    }
    assert(one + late =~= numbered);
    lemma_after_split(v, dir, one, late);
    lemma_after_entries(v, dir, late);
    if reached > shown {
        if shown >= given {
            assert(late[shown - given] == files[shown]);
        }
    }
    assert forall|i: int| 0 <= i < seen.len() implies ({
        let number = #[trigger] entry_numbers(v, context, dir, seen)[i];
        let name = seen[i].name@;
        if name == "."@ {
            number == context
        } else if name == ".."@ {
            number == WINFSP_ROOT_ID
        } else {
            after.known.contains_key(entry_path(dir, name)) && after.known[entry_path(dir, name)].0
                == number
        }
    }) by {
        if i < shift {
            assert(seen.take(i) =~= Seq::<FileInfo>::empty());
            assert(seen[i] == files[m]);
        } else {
            let t = i - shift;
            assert(seen.take(i) =~= one + late.take(t));
            lemma_after_split(v, dir, one, late.take(t));
            assert(seen[i] == late[t]);
            lemma_entry_number(v, context, dir, late, t);
            assert(entry_numbers(v, context, dir, late)[t] == entry_numbers(
                v,
                context,
                dir,
                seen,
            )[i]);
        }
    }
}

/// A directory that is read in pages, each with room for an entry at least and
/// each behind the last name of the one before, is listed in the order of its
/// names, every entry once, as far as there is room. `.` has the number of the
/// directory and `..` that of the root; an entry of which something was
/// remembered keeps its number; entries of different names have different
/// numbers; and each number is the one that is remembered in the end. The
/// server sends the same entries for each page; they have different names, none
/// of them `.` or `..`, each of whose characters is one unit.
pub proof fn law_read_in_pages(
    v: VolumeView,
    context: u64,
    dir: Seq<char>,
    sent: Seq<FileInfo>,
    all: Seq<FileInfo>,
    pages: Seq<DirPage>,
)
    requires
        sound(v),
        v.next + sent.len() + 2 <= u64::MAX,
        forall|i: int|
            0 <= i < sent.len() ==> single_units((#[trigger] sent[i]).name@) && !dotted(
                sent[i].name@,
            ),
        forall|i: int, j: int|
            0 <= i < j < sent.len() ==> (#[trigger] sent[i]).name@ != (#[trigger] sent[j]).name@,
        is_listing(all, sent),
        forall|i: int|
            0 <= i < pages.len() ==> (#[trigger] pages[i]).room > 0 && is_listing(
                pages[i].files,
                sent,
            ),
    ensures
        in_strict_order(all),
        all.len() == sent.len() + 2,
        ({
            let (w, got) = read_in_pages(v, context, dir, None, pages);
            &&& got.len() == (if room_in(pages) < all.len() {
                room_in(pages)
            } else {
                all.len()
            })
            &&& forall|i: int| 0 <= i < got.len() ==> (#[trigger] got[i]).0 == all[i].name@
            &&& forall|i: int|
                0 <= i < got.len() ==> {
                    let (name, number) = #[trigger] got[i];
                    let path = entry_path(dir, name);
                    if name == "."@ {
                        number == context
                    } else if name == ".."@ {
                        number == WINFSP_ROOT_ID
                    } else {
                        &&& v.known.contains_key(path) ==> number == v.known[path].0
                        &&& w.known.contains_key(path)
                        &&& w.known[path].0 == number
                        &&& w.paths[number] == path
                    }
                }
            &&& forall|i: int, j: int|
                0 <= i < j < got.len() && !dotted((#[trigger] got[i]).0) && !dotted(
                    (#[trigger] got[j]).0,
                ) ==> got[i].1 != got[j].1
        }),
{
    reveal_strlit(".");
    reveal_strlit("..");
    lemma_is_listing(all, sent);
    assert forall|i: int| 0 <= i < pages.len() implies (#[trigger] pages[i]).room > 0
        && same_names(pages[i].files, all) by {
        lemma_same_listing(pages[i].files, all, sent);
    }
    lemma_read_in_pages(v, context, dir, all, 0, 0, pages);
    let (w, got) = read_in_pages(v, context, dir, None, pages);
    assert forall|i: int, j: int|
        0 <= i < j < got.len() && !dotted((#[trigger] got[i]).0) && !dotted(
            (#[trigger] got[j]).0,
        ) implies got[i].1 != got[j].1 by {
        let p = entry_path(dir, got[i].0);
        let q = entry_path(dir, got[j].0);
        assert(all[i].name@ != all[j].name@);
        law_volume_numbers(w, p, q);
        if p == q {
            let skipped = if dir.len() == 0 {
                0
            } else {
                (dir + "/"@).len() as int
            };
            assert(p.skip(skipped) =~= got[i].0);
            assert(q.skip(skipped) =~= got[j].0);
        }
    }
}

/// A listing of entries of different names is in the strict order of the names.
proof fn lemma_is_listing(files: Seq<FileInfo>, sent: Seq<FileInfo>)
    requires
        is_listing(files, sent),
        forall|i: int|
            0 <= i < sent.len() ==> single_units((#[trigger] sent[i]).name@) && !dotted(
                sent[i].name@,
            ),
        forall|i: int, j: int|
            0 <= i < j < sent.len() ==> (#[trigger] sent[i]).name@ != (#[trigger] sent[j]).name@,
    ensures
        in_strict_order(files),
        files.len() == sent.len() + 2,
{
    reveal_strlit(".");
    reveal_strlit("..");
    let (here, up, now) = choose|here: FileInfo, up: FileInfo, now: u64|
        files == #[trigger] sorted(sent.push(here).push(up)) && #[trigger] is_dots(here, "."@, now)
            && #[trigger] is_dots(up, ".."@, now);
    let whole = sent.push(here).push(up);
    assert forall|i: int| 0 <= i < whole.len() implies single_units((#[trigger] whole[i]).name@) by {
        if i < sent.len() {
            assert(whole[i] == sent[i]);
        }
    }
    assert forall|i: int, j: int| 0 <= i < j < whole.len() implies (#[trigger] whole[i]).name@ != (
    #[trigger] whole[j]).name@ by {
        if i < sent.len() {
            assert(whole[i] == sent[i]);
            assert(!dotted(sent[i].name@));
        }
        if j < sent.len() {
            assert(whole[j] == sent[j]);
        }
    }
    lemma_sorted_distinct(whole);
    law_sorted(whole);
    whole.to_multiset_ensures();
    files.to_multiset_ensures();
}

/// Two listings of the same entries have the same names.
proof fn lemma_same_listing(a: Seq<FileInfo>, b: Seq<FileInfo>, sent: Seq<FileInfo>)
    requires
        is_listing(a, sent),
        is_listing(b, sent),
    ensures
        same_names(a, b),
{
    let (here, up, now) = choose|here: FileInfo, up: FileInfo, now: u64|
        a == #[trigger] sorted(sent.push(here).push(up)) && #[trigger] is_dots(here, "."@, now)
            && #[trigger] is_dots(up, ".."@, now);
    let (dot, dots, then) = choose|here: FileInfo, up: FileInfo, now: u64|
        b == #[trigger] sorted(sent.push(here).push(up)) && #[trigger] is_dots(here, "."@, now)
            && #[trigger] is_dots(up, ".."@, now);
    lemma_sorted_names(sent.push(here).push(up), sent.push(dot).push(dots));
}

/// What is told of the volume: its size, its free space and its label.
pub fn get_volume_info() -> (r: (u64, u64, String))
    ensures
        r.0 == VOLUME_SIZE,
        r.1 == VOLUME_SIZE,
        r.0 == 1_099_511_627_776,
        r.1 == 1_099_511_627_776,
        r.2@ == "RemoteFS"@,
{
    (VOLUME_SIZE, VOLUME_SIZE, owned("RemoteFS"))
}

/// What is told of the security of every file: no reparse point, a descriptor of
/// no length, and the attributes of an ordinary file.
pub fn get_security_by_name() -> (r: (bool, u64, u32))
    ensures
        r == (false, 0u64, FILE_ATTRIBUTE_NORMAL),
        r.2 == 0x80,
{
    (false, 0, FILE_ATTRIBUTE_NORMAL)
}

/// A file time grows by ten million steps a second, and the epoch lies
/// 11 644 473 600 seconds behind its beginning.
pub proof fn law_filetime(secs: nat, later: nat)
    ensures
        filetime(0) == 11_644_473_600 * 10_000_000,
        filetime(secs + later) == filetime(secs) + later * 10_000_000,
        secs < later ==> filetime(secs) < filetime(later),
{
}

/// What blocks take for a file is the least multiple of 4096 bytes that holds it.
pub proof fn law_allocated(size: nat)
    ensures
        allocated(size) % 4096 == 0,
        size <= allocated(size) < size + 4096,
        allocated(0) == 0,
{
}

/// What is told of a file is its size, the blocks it takes, its sort and its time,
/// the last for all four times.
pub proof fn law_told(ino: u64, f: FileInfo)
    requires
        f.size <= 0xffff_ffff_ffff_f000,
        f.timestamp <= 1_833_029_933_770,
    ensures
        told(ino, f).file_size == f.size,
        told(ino, f).allocation_size % 4096 == 0,
        f.size <= told(ino, f).allocation_size < f.size + 4096,
        told(ino, f).file_attributes == 0x10 <==> f.file_type@ == "dir"@,
        told(ino, f).file_attributes == 0x80 <==> f.file_type@ != "dir"@,
        told(ino, f).index_number == ino,
        told(ino, f).creation_time == 116_444_736_000_000_000 + 10_000_000 * f.timestamp,
        told(ino, f).last_access_time == told(ino, f).creation_time,
        told(ino, f).last_write_time == told(ino, f).creation_time,
        told(ino, f).change_time == told(ino, f).creation_time,
        told(ino, f).hard_links == 1,
{
}

/// The root is a directory without bytes, and has number 1.
pub proof fn law_told_of_root(time: u64)
    ensures
        told_of_root(time).file_attributes == 0x10,
        told_of_root(time).file_size == 0,
        told_of_root(time).allocation_size == 0,
        told_of_root(time).index_number == 1,
        told_of_root(time).creation_time == time,
        told_of_root(time).last_access_time == time,
        told_of_root(time).last_write_time == time,
        told_of_root(time).change_time == time,
{
}

/// The order of texts is that of a dictionary: a text comes before those that it
/// begins, and otherwise the first difference decides.
pub proof fn law_text_order(a: Seq<char>, b: Seq<char>)
    ensures
        text_le(a, a),
        text_le(Seq::empty(), a),
        text_le(a, a + b),
        text_le(a, b) && text_le(b, a) ==> a == b,
        text_le(a, b) || text_le(b, a),
        a.len() > 0 && b.len() > 0 && a[0] as int != b[0] as int ==> (text_le(a, b) <==> (a[0] as int)
            < b[0] as int),
        a.len() > 0 && b.len() > 0 && a[0] == b[0] ==> (text_le(a, b) <==> text_le(
            a.drop_first(),
            b.drop_first(),
        )),
    decreases a.len(),
{
    lemma_text_le_total(a, b);
    if a.len() == 0 {
        assert(a =~= Seq::empty());
        assert(text_le(b, a) ==> b =~= a);
    } else {
        law_text_order(a.drop_first(), b);
        assert((a + b).drop_first() =~= a.drop_first() + b);
        if b.len() > 0 {
            law_text_order(a.drop_first(), b.drop_first());
            if a[0] == b[0] && a.drop_first() == b.drop_first() {
                assert(a =~= seq![a[0]] + a.drop_first());
                assert(b =~= seq![b[0]] + b.drop_first());
            }
        }
    }
}

/// Sorting neither drops nor adds a file.
pub proof fn law_sorted_len(files: Seq<FileInfo>)
    ensures
        sorted(files).len() == files.len(),
    decreases files.len(),
{
    if files.len() > 0 {
        let before = sorted(files.drop_last());
        law_sorted_len(files.drop_last());
        lemma_place(before, files.last().name@);
    }
}

/// A listing holds every file that the server sent, and the two entries that every
/// directory has, in the order of their names.
pub proof fn law_listed_all(all: Seq<FileInfo>, here: FileInfo, up: FileInfo)
    ensures
        ({
            let r = sorted(all.push(here).push(up));
            &&& r.len() == all.len() + 2
            &&& r.contains(here) && r.contains(up)
            &&& forall|i: int| 0 <= i < all.len() ==> r.contains(#[trigger] all[i])
            &&& forall|i: int, j: int|
                0 <= i < j < r.len() ==> text_le(
                    (#[trigger] r[i]).name@,
                    (#[trigger] r[j]).name@,
                )
        }),
{
    let whole = all.push(here).push(up);
    let r = sorted(whole);
    law_sorted(whole);
    law_sorted_len(whole);
    assert forall|i: int| 0 <= i < whole.len() implies r.contains(#[trigger] whole[i]) by {
        assert(whole.contains(whole[i]));
        whole.to_multiset_ensures();
        r.to_multiset_ensures();
        assert(whole.to_multiset().contains(whole[i]));
        assert(r.to_multiset().contains(whole[i]));
    }
    assert(whole[all.len() as int] == here);
    assert(whole[all.len() as int + 1] == up);
    assert forall|i: int| 0 <= i < all.len() implies r.contains(#[trigger] all[i]) by {
        assert(whole[i] == all[i]);
    }
}

/// The next file of a listing is one that is not left out, and all between are.
pub proof fn law_next_listed(files: Seq<FileInfo>, from: int, marker: Option<Seq<u16>>)
    requires
        0 <= from,
    ensures
        ({
            let k = next_listed(files, from, marker);
            &&& k <= files.len()
            &&& from <= files.len() ==> from <= k
            &&& forall|i: int| from <= i < k ==> left_out(#[trigger] files[i], marker)
            &&& k < files.len() ==> from <= k && !left_out(files[k], marker) && wide_units(
                files[k].name@,
            ) is Some
        }),
    decreases files.len() - from,
{
    if from < files.len() && left_out(files[from], marker) {
        law_next_listed(files, from + 1, marker);
    }
}

/// Access is for writing where it asks to write, to append or for writing in
/// general; other bits do not count.
pub proof fn law_writes(access: u32)
    ensures
        writes(access) <==> access & 0x2 != 0 || access & 0x4 != 0 || access & 0x4000_0000 != 0,
{
    assert((access & (0x4000_0000u32 | 0x02u32 | 0x04u32) != 0) <==> (access & 0x2u32 != 0 || access
        & 0x4u32 != 0 || access & 0x4000_0000u32 != 0)) by (bit_vector);
}

/// A new size changes the size alone, and of the one file alone.
pub proof fn law_resized(v: VolumeView, path: Seq<char>, size: u64, other: Seq<char>)
    ensures
        ({
            let after = resized(v, path, size);
            &&& after.paths == v.paths && after.next == v.next
            &&& after.known.contains_key(other) <==> v.known.contains_key(other)
            &&& other != path && v.known.contains_key(other) ==> after.known[other]
                == v.known[other]
            &&& v.known.contains_key(path) ==> {
                let (ino, f) = after.known[path];
                &&& ino == v.known[path].0
                &&& f.size == size
                &&& f.name == v.known[path].1.name
                &&& f.path == v.known[path].1.path
                &&& f.file_type == v.known[path].1.file_type
                &&& f.timestamp == v.known[path].1.timestamp
                &&& f.permissions == v.known[path].1.permissions
            }
        }),
{
}

/// A file that is taken in gets the number that comes next, which then stands for
/// its path; what is known of other paths stays.
pub proof fn law_admitted(v: VolumeView, path: Seq<char>, f: FileInfo, other: Seq<char>)
    requires
        sound(v),
        v.next < u64::MAX,
    ensures
        admitted(v, path, f).known[path].0 == v.next,
        admitted(v, path, f).known[path].1 == f,
        admitted(v, path, f).known.contains_key(path),
        admitted(v, path, f).paths[v.next as u64] == path,
        !v.paths.contains_key(v.next as u64),
        admitted(v, path, f).next == v.next + 1,
        other != path ==> (admitted(v, path, f).known.contains_key(other) <==> v.known.contains_key(
            other,
        )),
        other != path && v.known.contains_key(other) ==> admitted(v, path, f).known[other]
            == v.known[other],
        sound(admitted(v, path, f)),
{
}

/// An entry of the root has its name for a path, and one of any other directory
/// the directory's path, a slash and its name.
pub proof fn law_entry_path(dir: Seq<char>, name: Seq<char>)
    ensures
        dir.len() == 0 ==> entry_path(dir, name) == name,
        dir.len() > 0 ==> {
            let p = entry_path(dir, name);
            &&& p.take(dir.len() as int) == dir
            &&& p[dir.len() as int] == '/'
            &&& p.skip(dir.len() as int + 1) == name
        },
{
    reveal_strlit("/");
    if dir.len() > 0 {
        let p = entry_path(dir, name);
        assert(p.take(dir.len() as int) =~= dir);
        assert(p.skip(dir.len() as int + 1) =~= name);
    }
}

} // verus!
