//! The plain file system as a volume on Windows: every operation goes straight
//! to the server.

use vstd::prelude::*;
use vstd::string::*;

use crate::bytes::{slice, slice_of};
use crate::paths::{
    absolute, directory_len, directory_of, driven, is_driven, segments, segments_of, slashes,
    to_slashes,
};
use crate::remote_api::{find_named, position_named, DirEntry};
use crate::text::{
    chars_of, find_last, last_position, owned, same_text, string_of, texts,
};

verus! {

/// The attribute of a directory.
pub const WIN32_FILE_ATTRIBUTE_DIRECTORY: u32 = 0x10;

/// Why an operation failed.
#[derive(Debug, Clone, Copy, PartialEq, Eq, Structural)]
pub enum WinError {
    FileNotFound,
    AccessDenied,
}

/// What is told of a file.
#[derive(Debug, Clone, Copy, PartialEq, Eq, Structural)]
pub struct PlainInfo {
    pub is_dir: bool,
    pub size: u64,
    pub file_attributes: u32,
}

/// What is told of an entry.
pub open spec fn told(is_dir: bool, size: u64) -> PlainInfo {
    PlainInfo {
        is_dir,
        size,
        file_attributes: if is_dir {
            WIN32_FILE_ATTRIBUTE_DIRECTORY
        } else {
            0
        },
    }
}

/// What is told of an entry.
fn tell(is_dir: bool, size: u64) -> (i: PlainInfo)
    ensures
        i == told(is_dir, size),
        i.is_dir == is_dir,
        i.size == size,
        is_dir ==> i.file_attributes == 0x10,
        !is_dir ==> i.file_attributes == 0,
{
    PlainInfo {
        is_dir,
        size,
        file_attributes: if is_dir {
            WIN32_FILE_ATTRIBUTE_DIRECTORY
        } else {
            0
        },
    }
}

/// What is told of the volume: its size, its free space and its label.
pub fn get_volume_info() -> (r: (u64, u64, String))
    ensures
        r.0 == 1_073_741_824,
        r.1 == 1_073_741_824,
        r.2@ == "RemoteFS"@,
{
    (1_073_741_824, 1_073_741_824, owned("RemoteFS"))
}

/// The path names a drive or another machine, as none does that comes from within
/// the volume.
pub open spec fn prefixed(path: Seq<char>) -> bool {
    let p = slashes(path, true);
    (p.len() >= 2 && p[0] == '/' && p[1] == '/') || driven(p, true)
}

/// The path is that of the root.
pub open spec fn is_root(path: Seq<char>) -> bool {
    path.len() == 0 || (absolute(slashes(path, true)) && segments(slashes(path, true)).len() == 0)
}

/// The directory that a path lies in: as much of the path.
pub open spec fn parent_of(path: Seq<char>) -> Seq<char> {
    path.take(directory_of(slashes(path, true)).len() as int)
}

/// A path that names something: its last segment does not go up.
pub open spec fn names_something(path: Seq<char>) -> bool {
    segments(slashes(path, true)).len() > 0 && segments(slashes(path, true)).last() != ".."@
}

/// The name that a path ends in.
pub open spec fn name_of(path: Seq<char>) -> Seq<char> {
    segments(slashes(path, true)).last()
}

/// The directory that a path lies in.
fn parent(path: &str) -> (r: String)
    ensures
        r@ == parent_of(path@),
{
    let forward = to_slashes(path, true);
    let chars = chars_of(forward.as_str());
    let n: usize = directory_len(&chars);
    let own = chars_of(path);
    let r = string_of(&own, 0, n);
    assert(r@ =~= parent_of(path@));
    r
}

/// Whether a path comes from within the volume.
pub fn is_within(path: &str) -> (r: bool)
    ensures
        r == !prefixed(path@),
{
    let forward = to_slashes(path, true);
    let p = forward.as_str();
    let shared = p.unicode_len() >= 2 && p.get_char(0) == '/' && p.get_char(1) == '/';
    !shared && !is_driven(p, true)
}

/// Whether a path is that of the root or names something.
pub fn is_named(path: &str) -> (r: bool)
    ensures
        r == (is_root(path@) || names_something(path@)),
{
    let forward = to_slashes(path, true);
    let pieces = segments_of(forward.as_str());
    let n: usize = pieces.len();
    assert(texts(pieces@).len() == n);
    if n == 0 {
        return forward.as_str().unicode_len() == 0 || forward.as_str().get_char(0) == '/';
    }
    assert(texts(pieces@).last() == pieces@[n - 1]@);
    !same_text(pieces[n - 1].as_str(), "..") || path.unicode_len() == 0
}

/// Where telling of a file stands.
#[derive(Debug)]
pub enum InfoStep {
    /// This directory has to be listed.
    List(String),
    /// It ended.
    Done(Result<PlainInfo, WinError>),
}

/// Tells of what stands at a path within the volume. `entries` is what listing its directory gave,
/// with `None` within for a failure.
pub fn get_file_info(path: &str, entries: Option<Option<Vec<DirEntry>>>) -> (step: InfoStep)
    requires
        !prefixed(path@),
        is_root(path@) || names_something(path@),
    ensures
        if is_root(path@) {
            step == InfoStep::Done(Ok(told(true, 0)))
        } else {
            match entries {
                None => step matches InfoStep::List(p) && p@ == parent_of(path@),
                Some(None) => step == InfoStep::Done(Err(WinError::FileNotFound)),
                Some(Some(all)) => match position_named(all@, name_of(path@)) {
                    Some(k) => step == InfoStep::Done(Ok(told(all@[k].is_dir, all@[k].size))),
                    None => step == InfoStep::Done(Err(WinError::FileNotFound)),
                },
            }
        },
        path@.len() == 0 ==> (step matches InfoStep::Done(Ok(i)) && i.is_dir && i.size == 0
            && i.file_attributes == 0x10),
        step matches InfoStep::Done(Ok(i)) ==> (i.file_attributes == 0x10 <==> i.is_dir),
        !is_root(path@) ==> (step matches InfoStep::Done(Ok(i)) ==> (entries matches Some(Some(all))
            && exists|k: int|
            0 <= k < all@.len() && (#[trigger] all@[k]).name@ == name_of(path@) && i.is_dir == all@[k].is_dir
                && i.size == all@[k].size)),
        !is_root(path@) ==> (entries matches Some(Some(all)) ==> (step == InfoStep::Done(
            Err(WinError::FileNotFound),
        ) <==> forall|k: int| 0 <= k < all@.len() ==> (#[trigger] all@[k]).name@ != name_of(path@))),
        !is_root(path@) ==> (entries is None <==> step is List),
{
    let forward = to_slashes(path, true);
    let pieces = segments_of(forward.as_str());
    let len: usize = forward.as_str().unicode_len();
    assert(texts(pieces@).len() == pieces@.len());
    if len == 0 || (forward.as_str().get_char(0) == '/' && pieces.len() == 0) {
        return InfoStep::Done(Ok(tell(true, 0)));
    }
    let n: usize = pieces.len();
    assert(texts(pieces@).last() == pieces@[n - 1]@);
    match entries {
        None => InfoStep::List(parent(path)),
        Some(None) => InfoStep::Done(Err(WinError::FileNotFound)),
        Some(Some(all)) => match find_named(&all, pieces[n - 1].as_str()) {
            Some(k) => {
                assert(all@[k as int].name@ == name_of(path@));
                InfoStep::Done(Ok(tell(all[k].is_dir, all[k].size)))
            },
            None => InfoStep::Done(Err(WinError::FileNotFound)),
        },
    }
}

/// The entries of a directory as they are told, in order. A directory that could
/// not be listed has none.
pub fn read_directory(entries: Option<Vec<DirEntry>>) -> (r: Vec<(String, PlainInfo)>)
    ensures
        match entries {
            None => r@.len() == 0,
            Some(all) => r@.len() == all@.len() && forall|i: int|
                0 <= i < all@.len() ==> (#[trigger] r@[i]).0@ == all@[i].name@ && r@[i].1 == told(
                    all@[i].is_dir,
                    all@[i].size,
                ),
        },
        entries matches Some(all) ==> forall|i: int|
            0 <= i < all@.len() ==> (#[trigger] r@[i]).1.is_dir == all@[i].is_dir && r@[i].1.size
                == all@[i].size && (all@[i].is_dir ==> r@[i].1.file_attributes == 0x10) && (!all@[i].is_dir
                ==> r@[i].1.file_attributes == 0),
{
    let mut r: Vec<(String, PlainInfo)> = Vec::new();
    if let Some(all) = entries {
        for i in 0..all.len()
            invariant
                r@.len() == i,
                forall|k: int|
                    0 <= k < i ==> (#[trigger] r@[k]).0@ == all@[k].name@ && r@[k].1 == told(
                        all@[k].is_dir,
                        all@[k].size,
                    ),
        {
            r.push((all[i].name.clone(), tell(all[i].is_dir, all[i].size)));
        }
    }
    r
}

/// The path's last segment has an extension: a dot that is not its first
/// character.
pub open spec fn has_extension(path: Seq<char>) -> bool {
    names_something(path) && match last_position(name_of(path), '.') {
        Some(i) => i > 0,
        None => false,
    }
}

/// Whether the last segment of a path within the volume has an extension.
pub fn extension(path: &str) -> (r: bool)
    requires
        !prefixed(path@),
    ensures
        r == has_extension(path@),
        segments(slashes(path@, true)).len() == 0 ==> !r,
        r ==> name_of(path@).contains('.') && name_of(path@).len() > 1,
        segments(slashes(path@, true)).len() > 0 && name_of(path@) != ".."@ ==> (r <==> exists|i: int|
            0 < i < name_of(path@).len() && #[trigger] name_of(path@)[i] == '.'),
{
    proof {
        law_extension(path@);
    }
    let forward = to_slashes(path, true);
    let pieces = segments_of(forward.as_str());
    let n: usize = pieces.len();
    assert(texts(pieces@).len() == n);
    if n == 0 {
        return false;
    }
    assert(texts(pieces@).last() == pieces@[n - 1]@);
    if same_text(pieces[n - 1].as_str(), "..") {
        return false;
    }
    match find_last(pieces[n - 1].as_str(), '.') {
        Some(i) => i > 0,
        None => false,
    }
}

/// Where making a file stands.
#[derive(Debug, Clone, Copy, PartialEq, Eq, Structural)]
pub enum PlainCreate {
    /// The file has to be read, to see whether it is there.
    Read,
    /// An empty file has to be written.
    Write,
    /// A directory has to be made.
    MakeDirectory,
    /// What was made has to be told of.
    Tell,
    /// It failed.
    Fail(WinError),
}

/// Makes an empty file where there is none, and a directory where the path has
/// no extension.
pub fn create(
    path: &str,
    readable: Option<bool>,
    written: Option<bool>,
    made: Option<bool>,
) -> (step: PlainCreate)
    requires
        !prefixed(path@),
    ensures
        step == (if readable is None {
            PlainCreate::Read
        } else if readable == Some(false) && written is None {
            PlainCreate::Write
        } else if readable == Some(false) && written == Some(false) {
            PlainCreate::Fail(WinError::AccessDenied)
        } else if !has_extension(path@) && made is None {
            PlainCreate::MakeDirectory
        } else if !has_extension(path@) && made == Some(false) {
            PlainCreate::Fail(WinError::AccessDenied)
        } else {
            PlainCreate::Tell
        }),
        step == PlainCreate::Tell ==> readable == Some(true) || (readable == Some(false) && written == Some(
            true,
        )),
        step == PlainCreate::Write <==> readable == Some(false) && written is None,
        step == PlainCreate::Read <==> readable is None,
        step == PlainCreate::MakeDirectory ==> !has_extension(path@) && made is None,
        has_extension(path@) && readable == Some(true) ==> step == PlainCreate::Tell,
{
    match readable {
        None => {
            return PlainCreate::Read;
        },
        Some(false) => match written {
            None => {
                return PlainCreate::Write;
            },
            Some(false) => {
                return PlainCreate::Fail(WinError::AccessDenied);
            },
            Some(true) => {},
        },
        Some(true) => {},
    }
    if !extension(path) {
        match made {
            None => {
                return PlainCreate::MakeDirectory;
            },
            Some(false) => {
                return PlainCreate::Fail(WinError::AccessDenied);
            },
            Some(true) => {},
        }
    }
    PlainCreate::Tell
}

/// A part of a file, of which the server sent the whole (`data`).
pub fn read(data: Option<Vec<u8>>, offset: u64, length: u64) -> (r: Result<Vec<u8>, WinError>)
    ensures
        match data {
            None => r == Err::<Vec<u8>, WinError>(WinError::FileNotFound),
            Some(d) => r matches Ok(b) && b@ == slice(d@, offset as int, length as int),
        },
        data is Some <==> r is Ok,
        data matches Some(d) ==> (r matches Ok(b) ==> {
            &&& b@.len() == (if offset >= d@.len() {
                0
            } else if d@.len() - offset < length {
                d@.len() - offset
            } else {
                length as int
            })
            &&& forall|i: int| 0 <= i < b@.len() ==> #[trigger] b@[i] == d@[offset + i]
        }),
{
    match data {
        None => Err(WinError::FileNotFound),
        Some(d) => Ok(slice_of(&d, offset, length)),
    }
}

/// The answer to a write of `len` bytes.
pub fn write(len: u32, written: bool) -> (r: Result<u32, WinError>)
    ensures
        r == (if written {
            Ok::<u32, WinError>(len)
        } else {
            Err(WinError::AccessDenied)
        }),
        written <==> r is Ok,
        r matches Ok(n) ==> n == len,
{
    if written {
        Ok(len)
    } else {
        Err(WinError::AccessDenied)
    }
}

/// The answer to a deletion.
pub fn delete(deleted: bool) -> (r: Result<(), WinError>)
    ensures
        deleted ==> r is Ok,
        !deleted ==> r == Err::<(), WinError>(WinError::AccessDenied),
{
    if deleted {
        Ok(())
    } else {
        Err(WinError::AccessDenied)
    }
}

/// What is told of an entry is whether it is a directory, in two ways, and its
/// size.
pub proof fn law_told(is_dir: bool, size: u64)
    ensures
        told(is_dir, size).is_dir == is_dir,
        told(is_dir, size).size == size,
        told(is_dir, size).file_attributes == 0x10 <==> is_dir,
        told(is_dir, size).file_attributes == 0 <==> !is_dir,
{
}

/// The name of an entry and the directory it lies in make up the path, segment by
/// segment.
pub proof fn law_name_and_parent(path: Seq<char>)
    requires
        segments(slashes(path, true)).len() > 0,
    ensures
        segments(directory_of(slashes(path, true))).push(name_of(path)) == segments(
            slashes(path, true),
        ),
{
    crate::paths::law_directory_segments(slashes(path, true));
    assert(segments(slashes(path, true)).drop_last().push(name_of(path)) =~= segments(
        slashes(path, true),
    ));
}

/// The last segment of a path has an extension where a dot stands in it behind its
/// first character; a name that only begins with a dot has none.
pub proof fn law_extension(path: Seq<char>)
    ensures
        has_extension(path) ==> names_something(path) && name_of(path).contains('.')
            && name_of(path).len() > 1,
        names_something(path) ==> (has_extension(path) <==> exists|i: int|
            0 < i < name_of(path).len() && #[trigger] name_of(path)[i] == '.'),
{
    let name = name_of(path);
    crate::paths::lemma_last_position(name, '.');
    if let Some(i) = last_position(name, '.') {
        assert(name[i] == '.');
    }
}

/// The path of the root is empty, or has slashes and `.` in it and nothing else,
/// with a slash first.
pub proof fn law_is_root(path: Seq<char>)
    ensures
        is_root(Seq::empty()),
        is_root(path) && path.len() > 0 ==> path[0] == '/' || path[0] == '\\',
        segments(slashes(path, true)).len() > 0 ==> !is_root(path) || path.len() == 0,
{
    crate::text::law_replaced(path, '\\', '/');
}

} // verus!
