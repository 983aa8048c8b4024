//! What a mounted file system on a Unix system answers: attributes, the paths
//! that names stand for, and the lines of a directory.

use std::collections::HashMap;

use vstd::prelude::*;
use vstd::string::*;

use crate::errno::Errno;
use crate::inode_table::{block_count, blocks_for, FileType};
use crate::inodes::{path_of, seen_in, InodesView};
use crate::numeral::{parse_octal_u16, parsed_within};
use crate::paths::{
    below, child, child_of, components, components_of, directory_len, directory_of, join_path,
    joined, path_below, same_texts,
};
use crate::remote::{FileInfo, RemoteFilesystem};
use crate::remote_api::{find_named, position_named, DirEntry};
use crate::text::{chars_of, owned, same_text, string_of, texts};

verus! {

broadcast use vstd::std_specs::hash::group_hash_axioms;

/// For how many seconds the system may take an answer for true.
pub const TTL_SECONDS: u64 = 1;

/// The attributes of a file. All its times are the same, in seconds since the
/// epoch.
#[derive(Debug, Clone, Copy, PartialEq, Eq, Structural)]
pub struct FileAttr {
    pub ino: u64,
    pub size: u64,
    pub blocks: u64,
    pub time: u64,
    pub kind: FileType,
    pub perm: u16,
    pub nlink: u32,
    pub uid: u32,
    pub gid: u32,
    pub rdev: u32,
    pub flags: u32,
    pub blksize: u32,
}

/// The permission bits that a text in base eight stands for, and usual ones
/// where it stands for none.
pub open spec fn perm_for(permissions: Seq<char>) -> nat {
    match parsed_within(permissions, 8, u16::MAX as nat) {
        Some(n) => n,
        None => 0o755,
    }
}

/// What a file is.
pub open spec fn kind_for(file_type: Seq<char>) -> FileType {
    if file_type == "dir"@ {
        FileType::Directory
    } else {
        FileType::RegularFile
    }
}

/// What a file is.
fn kind_of(file_type: &str) -> (kind: FileType)
    ensures
        kind == kind_for(file_type@),
{
    if same_text(file_type, "dir") {
        FileType::Directory
    } else {
        FileType::RegularFile
    }
}

/// The attributes of a file with this number and this owner.
pub open spec fn attr_of(ino: u64, info: FileInfo, uid: u32, gid: u32) -> FileAttr {
    FileAttr {
        ino,
        size: info.size,
        blocks: blocks_for(info.size as nat) as u64,
        time: info.timestamp,
        kind: kind_for(info.file_type@),
        perm: perm_for(info.permissions@) as u16,
        nlink: if info.file_type@ == "dir"@ {
            2
        } else {
            1
        },
        uid,
        gid,
        rdev: 0,
        flags: 0,
        blksize: 512,
    }
}

impl RemoteFilesystem {
    /// The path of `name` in the directory `parent`, to be looked up or made as a
    /// file.
    pub fn child_path(&self, parent: u64, name: &str) -> (r: Result<String, Errno>)
        ensures
            match path_of(self.inodes@, parent) {
                Some(p) => r matches Ok(q) && q@ == child(p, name@),
                None => r matches Err(e) && e == Errno::NoEnt,
            },
            r matches Ok(q) ==> q@.len() >= name@.len() && q@.skip(q@.len() - name@.len()) == name@,
            r is Ok <==> parent == 1 || self.inodes@.paths.contains_key(parent),
            parent == 1 ==> (r matches Ok(q) && q@ == name@),
    {
        assert(name@.skip(0) =~= name@);
        match self.get_path_by_ino(parent) {
            Some(p) => Ok(child_of(p.as_str(), name)),
            None => Err(Errno::NoEnt),
        }
    }

    /// The path of `name` below the directory `parent`, to be made as a directory,
    /// renamed or removed.
    pub fn path_below(&self, parent: u64, name: &str) -> (r: Result<String, Errno>)
        ensures
            match path_of(self.inodes@, parent) {
                Some(p) => r matches Ok(q) && q@ == below(p, name@),
                None => r matches Err(e) && e == Errno::NoEnt,
            },
            r matches Ok(q) ==> q@.len() > name@.len() && q@.skip(q@.len() - name@.len()) == name@ && q@[q@.len()
                - name@.len() - 1] == '/',
            r is Ok <==> parent == 1 || self.inodes@.paths.contains_key(parent),
    {
        match self.get_path_by_ino(parent) {
            Some(p) => Ok(path_below(p.as_str(), name)),
            None => Err(Errno::NoEnt),
        }
    }

    /// The path of a file to be created as `name` in the directory `parent`.
    pub fn create_path(&self, parent: u64, name: &str) -> (r: Result<String, Errno>)
        ensures
            match path_of(self.inodes@, parent) {
                Some(p) => r matches Ok(q) && q@ == (if p.len() == 0 {
                    name@
                } else {
                    below(p, name@)
                }),
                None => r matches Err(e) && e == Errno::NoEnt,
            },
            r matches Ok(q) ==> q@.len() >= name@.len() && q@.skip(q@.len() - name@.len()) == name@,
            r is Ok <==> parent == 1 || self.inodes@.paths.contains_key(parent),
            parent == 1 ==> (r matches Ok(q) && q@ == name@),
    {
        assert(name@.skip(0) =~= name@);
        match self.get_path_by_ino(parent) {
            Some(p) => if p.as_str().unicode_len() == 0 {
                Ok(owned(name))
            } else {
                Ok(path_below(p.as_str(), name))
            },
            None => Err(Errno::NoEnt),
        }
    }

    /// The paths of what is to be renamed, before and after.
    pub fn rename_paths(&self, parent: u64, name: &str, newparent: u64, newname: &str) -> (r: Result<
        (String, String),
        Errno,
    >)
        ensures
            match (path_of(self.inodes@, parent), path_of(self.inodes@, newparent)) {
                (Some(p), Some(q)) => r matches Ok(pair) && pair.0@ == below(p, name@) && pair.1@
                    == below(q, newname@),
                _ => r matches Err(e) && e == Errno::NoEnt,
            },
            r matches Ok(pair) ==> pair.0@.len() > name@.len() && pair.0@.skip(pair.0@.len() - name@.len())
                == name@ && pair.1@.len() > newname@.len() && pair.1@.skip(pair.1@.len() - newname@.len())
                == newname@,
    {
        match self.path_below(parent, name) {
            Ok(from) => match self.path_below(newparent, newname) {
                Ok(to) => Ok((from, to)),
                Err(e) => Err(e),
            },
            Err(e) => Err(e),
        }
    }

    /// The path of an open node.
    pub fn node_path(&self, ino: u64) -> (r: Result<String, Errno>)
        ensures
            match path_of(self.inodes@, ino) {
                Some(p) => r matches Ok(q) && q@ == p,
                None => r matches Err(e) && e == Errno::NoEnt,
            },
            r is Ok <==> ino == 1 || self.inodes@.paths.contains_key(ino),
            ino == 1 ==> (r matches Ok(q) && q@.len() == 0),
            ino != 1 ==> (r matches Ok(q) ==> q@ == self.inodes@.paths[ino]),
    {
        match self.get_path_by_ino(ino) {
            Some(p) => Ok(p),
            None => Err(Errno::NoEnt),
        }
    }
}

/// A line of a directory: a node, its name, and the offset from which the
/// directory is read on behind it.
#[derive(Debug)]
pub struct DirLine {
    pub ino: u64,
    pub next_offset: u64,
    pub kind: FileType,
    pub name: String,
}

/// The line is that of this node.
pub open spec fn line_is(
    line: DirLine,
    ino: u64,
    next_offset: int,
    kind: FileType,
    name: Seq<char>,
) -> bool {
    &&& line.ino == ino
    &&& line.next_offset == next_offset
    &&& line.kind == kind
    &&& line.name@ == name
}

/// The line number `n` of a directory: itself first, then the one above it, then
/// its entries.
pub open spec fn nth_line(
    line: DirLine,
    n: int,
    ino: u64,
    parent: u64,
    entries: Seq<(u64, FileInfo)>,
) -> bool {
    if n == 0 {
        line_is(line, ino, 1, FileType::Directory, "."@)
    } else if n == 1 {
        line_is(line, parent, 2, FileType::Directory, ".."@)
    } else {
        let (i, f) = entries[n - 2];
        line_is(line, i, n + 1, kind_for(f.file_type@), f.name@)
    }
}

/// The lines of a directory from `offset` on.
pub open spec fn lines_from(
    lines: Seq<DirLine>,
    offset: int,
    ino: u64,
    parent: u64,
    entries: Seq<(u64, FileInfo)>,
) -> bool {
    let all = entries.len() + 2;
    &&& lines.len() == (if offset < all {
        all - offset
    } else {
        0
    })
    &&& forall|k: int|
        0 <= k < lines.len() ==> #[trigger] nth_line(lines[k], offset + k, ino, parent, entries)
}

/// The lines of the directory `ino` from `offset` on, in the order in which they
/// are to be offered.
pub fn directory_lines(
    ino: u64,
    parent: u64,
    entries: &Vec<(u64, FileInfo)>,
    offset: u64,
) -> (lines: Vec<DirLine>)
    requires
        entries@.len() + 3 <= u64::MAX,
    ensures
        lines_from(lines@, offset as int, ino, parent, entries@),
        lines@.len() == (if offset <= entries@.len() + 2 {
            entries@.len() + 2 - offset
        } else {
            0
        }),
        offset == 0 ==> lines@[0].name@ == "."@ && lines@[0].ino == ino && lines@[1].name@ == ".."@
            && lines@[1].ino == parent,
{
    let mut lines: Vec<DirLine> = Vec::new();
    let count: usize = entries.len();
    let all: u64 = count as u64 + 2;
    let mut n: u64 = offset;
    while n < all
        invariant
            count == entries@.len(),
            all == count + 2,
            all < u64::MAX,
            offset <= n,
            n <= all || n == offset,
            lines@.len() == n - offset,
            forall|k: int|
                0 <= k < lines@.len() ==> #[trigger] nth_line(
                    lines@[k],
                    offset + k,
                    ino,
                    parent,
                    entries@,
                ),
        decreases all - n,
    {
        let ghost before = lines@;
        let line = if n == 0 {
            DirLine { ino, next_offset: 1, kind: FileType::Directory, name: owned(".") }
        } else if n == 1 {
            DirLine { ino: parent, next_offset: 2, kind: FileType::Directory, name: owned("..") }
        } else {
            let entry = &entries[(n - 2) as usize];
            DirLine {
                ino: entry.0,
                next_offset: n + 1,
                kind: kind_of(entry.1.file_type.as_str()),
                name: entry.1.name.clone(),
            }
        };
        assert(nth_line(line, n as int, ino, parent, entries@));
        lines.push(line);
        assert forall|k: int| 0 <= k < lines@.len() implies #[trigger] nth_line(
            lines@[k],
            offset + k,
            ino,
            parent,
            entries@,
        ) by {
            if k < before.len() {
                assert(lines@[k] == before[k]);
            }
        }
        n = n + 1;
    }
    proof {
        law_directory_lines(lines@, offset as int, ino, parent, entries@);
    }
    lines
}

/// A directory that is read on from the offset behind a line gives the lines
/// that are left, so that no entry is given twice and none is left out.
pub proof fn law_directory_resumes(
    lines: Seq<DirLine>,
    offset: int,
    ino: u64,
    parent: u64,
    entries: Seq<(u64, FileInfo)>,
    k: int,
)
    requires
        lines_from(lines, offset, ino, parent, entries),
        0 <= offset,
        0 <= k < lines.len(),
    ensures
        lines[k].next_offset == offset + k + 1,
        lines_from(lines.skip(k + 1), lines[k].next_offset as int, ino, parent, entries),
{
    assert(nth_line(lines[k], offset + k, ino, parent, entries));
    let rest = lines.skip(k + 1);
    assert forall|j: int| 0 <= j < rest.len() implies #[trigger] nth_line(
        rest[j],
        offset + k + 1 + j,
        ino,
        parent,
        entries,
    ) by {
        assert(nth_line(lines[k + 1 + j], offset + (k + 1 + j), ino, parent, entries));
    }
}

/// Where an operation of the mounted file system stands.
#[derive(Debug)]
pub enum FuseStep<T> {
    /// The metadata of this path are wanted.
    Stat(String),
    /// This directory has to be listed.
    List(String),
    /// The file at this path has to be read.
    Read(String),
    /// The file at this path has to be written.
    Write(String),
    /// This directory has to be made.
    MakeDir(String),
    /// What stands at this path has to be deleted.
    Delete(String),
    /// What stands at the first path has to be given the second.
    Rename(String, String),
    /// This is the answer to the system.
    Answer(Result<T, Errno>),
}

/// The answer is that there is no such thing.
pub open spec fn answers_missing<T>(step: FuseStep<T>) -> bool {
    step == FuseStep::<T>::Answer(Err(Errno::NoEnt))
}

/// The step of an operation of which only the success counts.
pub open spec fn passed_on(step: FuseStep<()>, done: Result<(), Errno>) -> bool {
    match done {
        Ok(_) => step matches FuseStep::Answer(Ok(_)),
        Err(e) => step == FuseStep::<()>::Answer(Err(e)),
    }
}

/// The mounted file system, with the owner that it gives its files.
#[derive(Debug, Clone, Copy, PartialEq, Eq, Structural)]
pub struct FuseAdapter {
    pub uid: u32,
    pub gid: u32,
}

impl FuseAdapter {
    /// The attributes of a file with this number.
    pub fn make_attr(&self, ino: u64, info: &FileInfo) -> (a: FileAttr)
        ensures
            a == attr_of(ino, *info, self.uid, self.gid),
            a.ino == ino && a.size == info.size && a.time == info.timestamp && a.uid == self.uid && a.gid
                == self.gid && info.size <= 512 * a.blocks < info.size + 512 && (a.kind == FileType::Directory
                <==> info.file_type@ == "dir"@),
            parsed_within(info.permissions@, 8, 0xffff) matches Some(n) ==> a.perm == n,
    {
        let kind = kind_of(info.file_type.as_str());
        FileAttr {
            ino,
            size: info.size,
            blocks: block_count(info.size),
            time: info.timestamp,
            kind,
            perm: match parse_octal_u16(info.permissions.as_str()) {
                Some(p) => p,
                None => 0o755,
            },
            nlink: if kind == FileType::Directory {
                2
            } else {
                1
            },
            uid: self.uid,
            gid: self.gid,
            rdev: 0,
            flags: 0,
            blksize: 512,
        }
    }

    /// The answer that asking for the metadata leads to.
    pub open spec fn told(
        &self,
        step: FuseStep<FileAttr>,
        stat: Result<(u64, FileInfo), Errno>,
    ) -> bool {
        match stat {
            Ok(known) => step == FuseStep::Answer(
                Ok::<FileAttr, Errno>(attr_of(known.0, known.1, self.uid, self.gid)),
            ),
            Err(e) => step == FuseStep::<FileAttr>::Answer(Err(e)),
        }
    }

    fn tell(&self, stat: Result<(u64, FileInfo), Errno>) -> (step: FuseStep<FileAttr>)
        ensures
            self.told(step, stat),
            step matches FuseStep::Answer(Ok(a)) ==> (stat matches Ok(known) && a.ino == known.0 && a.size == known.1.size && a.time == known.1.timestamp && a.uid == self.uid && a.gid
                == self.gid && known.1.size <= 512 * a.blocks < known.1.size + 512 && (a.kind == FileType::Directory
                <==> known.1.file_type@ == "dir"@)),
            stat is Ok <==> (step matches FuseStep::Answer(Ok(_))),
            stat matches Err(e) ==> (step matches FuseStep::Answer(Err(x)) && x == e),
    {
        match stat {
            Ok(known) => FuseStep::Answer(Ok(self.make_attr(known.0, &known.1))),
            Err(e) => FuseStep::Answer(Err(e)),
        }
    }

    /// The attributes of a node.
    pub fn getattr(
        &self,
        fs: &RemoteFilesystem,
        ino: u64,
        stat: Option<Result<(u64, FileInfo), Errno>>,
    ) -> (step: FuseStep<FileAttr>)
        ensures
            match stat {
                None => match path_of(fs.inodes@, ino) {
                    None => answers_missing(step),
                    Some(path) => step matches FuseStep::Stat(p) && p@ == path,
                },
                Some(s) => self.told(step, s),
            },
            step matches FuseStep::Answer(Ok(a)) ==> (stat matches Some(Ok(known)) && a.ino == known.0 && a.size == known.1.size && a.time == known.1.timestamp && a.uid == self.uid && a.gid
                == self.gid && known.1.size <= 512 * a.blocks < known.1.size + 512 && (a.kind == FileType::Directory
                <==> known.1.file_type@ == "dir"@)),
            (step matches FuseStep::Answer(Ok(_))) <==> (stat matches Some(Ok(_))),
            stat matches Some(Err(e)) ==> (step matches FuseStep::Answer(Err(x)) && x == e),
    {
        match stat {
            None => match fs.node_path(ino) {
                Ok(path) => FuseStep::Stat(path),
                Err(e) => FuseStep::Answer(Err(e)),
            },
            Some(s) => self.tell(s),
        }
    }

    /// The attributes of what has a name in a directory. Whatever stands in the
    /// way, the answer is that there is no such thing.
    pub fn lookup(
        &self,
        fs: &RemoteFilesystem,
        parent: u64,
        name: &str,
        stat: Option<Result<(u64, FileInfo), Errno>>,
    ) -> (step: FuseStep<FileAttr>)
        ensures
            match stat {
                None => match path_of(fs.inodes@, parent) {
                    None => answers_missing(step),
                    Some(dir) => step matches FuseStep::Stat(p) && p@ == child(dir, name@),
                },
                Some(Err(_)) => answers_missing(step),
                Some(s) => self.told(step, s),
            },
            step matches FuseStep::Answer(Ok(a)) ==> (stat matches Some(Ok(known)) && a.ino == known.0 && a.size == known.1.size && a.time == known.1.timestamp && a.uid == self.uid && a.gid
                == self.gid && known.1.size <= 512 * a.blocks < known.1.size + 512 && (a.kind == FileType::Directory
                <==> known.1.file_type@ == "dir"@)),
            (step matches FuseStep::Answer(Ok(_))) <==> (stat matches Some(Ok(_))),
            step matches FuseStep::Answer(Err(x)) ==> x == Errno::NoEnt,
            step matches FuseStep::Stat(p) ==> p@.len() >= name@.len() && p@.skip(p@.len() - name@.len()) == name@,
    {
        match stat {
            None => match fs.child_path(parent, name) {
                Ok(path) => FuseStep::Stat(path),
                Err(e) => FuseStep::Answer(Err(e)),
            },
            Some(Err(_)) => FuseStep::Answer(Err(Errno::NoEnt)),
            Some(s) => self.tell(s),
        }
    }

    /// The lines of a directory from `offset` on.
    pub fn readdir(
        &self,
        fs: &RemoteFilesystem,
        ino: u64,
        offset: u64,
        listed: Option<Result<Vec<(u64, FileInfo)>, Errno>>,
    ) -> (step: FuseStep<Vec<DirLine>>)
        requires
            listed matches Some(Ok(entries)) ==> entries@.len() + 3 <= u64::MAX,
        ensures
            match listed {
                None => match path_of(fs.inodes@, ino) {
                    None => answers_missing(step),
                    Some(path) => step matches FuseStep::List(p) && p@ == path,
                },
                Some(Err(e)) => step == FuseStep::<Vec<DirLine>>::Answer(Err(e)),
                Some(Ok(entries)) => step matches FuseStep::Answer(Ok(lines)) && lines_from(
                    lines@,
                    offset as int,
                    ino,
                    seen_in(fs.inodes@, ino),
                    entries@,
                ),
            },
            step matches FuseStep::Answer(Ok(lines)) ==> (listed matches Some(Ok(entries)) && forall|k: int|
                0 <= k < entries@.len() && offset <= k + 2 ==> lines@[k + 2 - offset].name@ == (
                #[trigger] entries@[k]).1.name@ && lines@[k + 2 - offset].ino == entries@[k].0 && lines@[k + 2
                    - offset].next_offset == k + 3 && (lines@[k + 2 - offset].kind == FileType::Directory
                    <==> entries@[k].1.file_type@ == "dir"@)),
            (step matches FuseStep::Answer(Ok(_))) <==> (listed matches Some(Ok(_))),
    {
        match listed {
            None => match fs.node_path(ino) {
                Ok(path) => FuseStep::List(path),
                Err(e) => FuseStep::Answer(Err(e)),
            },
            Some(Err(e)) => FuseStep::Answer(Err(e)),
            Some(Ok(entries)) => {
                let lines = directory_lines(ino, fs.inodes.parent_of(ino), &entries, offset);
                proof {
                    law_directory_lines(
                        lines@,
                        offset as int,
                        ino,
                        seen_in(fs.inodes@, ino),
                        entries@,
                    );
                }
                FuseStep::Answer(Ok(lines))
            },
        }
    }

    /// Notes that a line of the directory `ino` was offered to the system: what
    /// is in a directory was seen there.
    pub fn offered(&self, fs: &mut RemoteFilesystem, ino: u64, line: &DirLine)
        requires
            old(fs).wf(),
        ensures
            final(fs).wf(),
            final(fs).same_but_numbers(old(fs)),
            final(fs).inodes@ == (if line.next_offset > 2 {
                InodesView {
                    parents: old(fs).inodes@.parents.insert(line.ino, ino),
                    ..old(fs).inodes@
                }
            } else {
                old(fs).inodes@
            }),
            line.next_offset <= 2 ==> final(fs).inodes@ == old(fs).inodes@,
            line.next_offset > 2 ==> seen_in(final(fs).inodes@, line.ino) == ino,
            forall|i: u64|
                i != line.ino ==> #[trigger] seen_in(final(fs).inodes@, i) == seen_in(old(fs).inodes@, i),
    {
        if line.next_offset > 2 {
            fs.inodes.set_parent(line.ino, ino);
        }
    }

    /// The bytes of a file.
    pub fn read(
        &self,
        fs: &RemoteFilesystem,
        ino: u64,
        data: Option<Result<Vec<u8>, Errno>>,
    ) -> (step: FuseStep<Vec<u8>>)
        ensures
            match data {
                None => match path_of(fs.inodes@, ino) {
                    None => answers_missing(step),
                    Some(path) => step matches FuseStep::Read(p) && p@ == path,
                },
                Some(d) => step == FuseStep::Answer(d),
            },
            step matches FuseStep::Answer(Ok(b)) ==> (data matches Some(Ok(bytes)) && b@.len() == bytes@.len()
                && forall|i: int| 0 <= i < bytes@.len() ==> #[trigger] b@[i] == bytes@[i]),
            (step matches FuseStep::Answer(Ok(_))) <==> (data matches Some(Ok(_))),
    {
        match data {
            None => match fs.node_path(ino) {
                Ok(path) => FuseStep::Read(path),
                Err(e) => FuseStep::Answer(Err(e)),
            },
            Some(d) => FuseStep::Answer(d),
        }
    }

    /// How many of `len` bytes were written: all of them, or none.
    pub fn write(
        &self,
        fs: &RemoteFilesystem,
        ino: u64,
        len: u32,
        written: Option<Result<(), Errno>>,
    ) -> (step: FuseStep<u32>)
        ensures
            match written {
                None => match path_of(fs.inodes@, ino) {
                    None => answers_missing(step),
                    Some(path) => step matches FuseStep::Write(p) && p@ == path,
                },
                Some(Ok(_)) => step == FuseStep::Answer(Ok::<u32, Errno>(len)),
                Some(Err(e)) => step == FuseStep::<u32>::Answer(Err(e)),
            },
            step matches FuseStep::Answer(Ok(n)) ==> n == len,
            (step matches FuseStep::Answer(Ok(_))) <==> (written matches Some(Ok(_))),
    {
        match written {
            None => match fs.node_path(ino) {
                Ok(path) => FuseStep::Write(path),
                Err(e) => FuseStep::Answer(Err(e)),
            },
            Some(Ok(_)) => FuseStep::Answer(Ok(len)),
            Some(Err(e)) => FuseStep::Answer(Err(e)),
        }
    }

    /// Makes an empty file: nothing is written at its beginning, and then its
    /// attributes are told. `written` is the path that was written to, and what
    /// became of that.
    pub fn create(
        &self,
        fs: &RemoteFilesystem,
        parent: u64,
        name: &str,
        written: Option<(&str, Result<(), Errno>)>,
        stat: Option<Result<(u64, FileInfo), Errno>>,
    ) -> (step: FuseStep<FileAttr>)
        ensures
            match written {
                None => match path_of(fs.inodes@, parent) {
                    None => answers_missing(step),
                    Some(dir) => step matches FuseStep::Write(p) && p@ == (if dir.len() == 0 {
                        name@
                    } else {
                        below(dir, name@)
                    }),
                },
                Some((_, Err(e))) => step == FuseStep::<FileAttr>::Answer(Err(e)),
                Some((path, Ok(_))) => match stat {
                    None => step matches FuseStep::Stat(p) && p@ == path@,
                    Some(s) => self.told(step, s),
                },
            },
            step matches FuseStep::Answer(Ok(a)) ==> (stat matches Some(Ok(known)) && a.ino == known.0 && a.size == known.1.size && a.time == known.1.timestamp && a.uid == self.uid && a.gid
                == self.gid && known.1.size <= 512 * a.blocks < known.1.size + 512 && (a.kind == FileType::Directory
                <==> known.1.file_type@ == "dir"@)),
            (step matches FuseStep::Answer(Ok(_))) <==> (written matches Some((_, Ok(_)))) && (stat matches Some(
                Ok(_),
            )),
            step is Write <==> written is None && path_of(fs.inodes@, parent) is Some,
            step matches FuseStep::Write(p) ==> p@.len() >= name@.len() && p@.skip(p@.len() - name@.len()) == name@,
    {
        match written {
            None => match fs.create_path(parent, name) {
                Ok(path) => FuseStep::Write(path),
                Err(e) => FuseStep::Answer(Err(e)),
            },
            Some((_, Err(e))) => FuseStep::Answer(Err(e)),
            Some((path, Ok(_))) => match stat {
                None => FuseStep::Stat(owned(path)),
                Some(s) => self.tell(s),
            },
        }
    }

    /// Makes a directory, and tells its attributes. A directory that was made has
    /// some. `made` is the path that was made, and what became of that.
    pub fn mkdir(
        &self,
        fs: &RemoteFilesystem,
        parent: u64,
        name: &str,
        made: Option<(&str, Result<(), Errno>)>,
        stat: Option<Result<(u64, FileInfo), Errno>>,
    ) -> (step: FuseStep<FileAttr>)
        requires
            made is Some && made->Some_0.1 is Ok && stat is Some ==> stat->Some_0 is Ok,
        ensures
            match made {
                None => match path_of(fs.inodes@, parent) {
                    None => answers_missing(step),
                    Some(dir) => step matches FuseStep::MakeDir(p) && p@ == below(dir, name@),
                },
                Some((_, Err(e))) => step == FuseStep::<FileAttr>::Answer(Err(e)),
                Some((path, Ok(_))) => match stat {
                    None => step matches FuseStep::Stat(p) && p@ == path@,
                    Some(s) => self.told(step, s),
                },
            },
            step matches FuseStep::Answer(Ok(a)) ==> (stat matches Some(Ok(known)) && a.ino == known.0 && a.size == known.1.size && a.time == known.1.timestamp && a.uid == self.uid && a.gid
                == self.gid && known.1.size <= 512 * a.blocks < known.1.size + 512 && (a.kind == FileType::Directory
                <==> known.1.file_type@ == "dir"@)),
            (step matches FuseStep::Answer(Ok(_))) <==> (made matches Some((_, Ok(_)))) && (stat matches Some(Ok(_))),
            step is MakeDir <==> made is None && path_of(fs.inodes@, parent) is Some,
            step matches FuseStep::MakeDir(p) ==> p@.len() >= name@.len() && p@.skip(p@.len() - name@.len()) == name@,
    {
        match made {
            None => match fs.path_below(parent, name) {
                Ok(path) => FuseStep::MakeDir(path),
                Err(e) => FuseStep::Answer(Err(e)),
            },
            Some((_, Err(e))) => FuseStep::Answer(Err(e)),
            Some((path, Ok(_))) => match stat {
                None => FuseStep::Stat(owned(path)),
                Some(s) => self.tell(s),
            },
        }
    }

    /// Gives what has a name in a directory another name, perhaps in another one.
    pub fn rename(
        &self,
        fs: &RemoteFilesystem,
        parent: u64,
        name: &str,
        newparent: u64,
        newname: &str,
        renamed: Option<Result<(), Errno>>,
    ) -> (step: FuseStep<()>)
        ensures
            match renamed {
                None => match (path_of(fs.inodes@, parent), path_of(fs.inodes@, newparent)) {
                    (Some(p), Some(q)) => step matches FuseStep::Rename(from, to) && from@ == below(
                        p,
                        name@,
                    ) && to@ == below(q, newname@),
                    _ => answers_missing(step),
                },
                Some(r) => passed_on(step, r),
            },
            (step matches FuseStep::Answer(Ok(_))) <==> (renamed matches Some(Ok(_))),
            renamed matches Some(Err(e)) ==> (step matches FuseStep::Answer(Err(x)) && x == e),
            step matches FuseStep::Rename(from, to) ==> from@.len() > name@.len() && from@.skip(from@.len()
                - name@.len()) == name@ && to@.len() > newname@.len() && to@.skip(to@.len() - newname@.len())
                == newname@,
    {
        match renamed {
            None => match fs.rename_paths(parent, name, newparent, newname) {
                Ok((from, to)) => FuseStep::Rename(from, to),
                Err(e) => FuseStep::Answer(Err(e)),
            },
            Some(r) => FuseStep::Answer(r),
        }
    }

    /// Removes what has a name in a directory, be it a file or a directory.
    pub fn remove_any(
        &self,
        fs: &RemoteFilesystem,
        parent: u64,
        name: &str,
        deleted: Option<Result<(), Errno>>,
    ) -> (step: FuseStep<()>)
        ensures
            match deleted {
                None => match path_of(fs.inodes@, parent) {
                    None => answers_missing(step),
                    Some(dir) => step matches FuseStep::Delete(p) && p@ == below(dir, name@),
                },
                Some(r) => passed_on(step, r),
            },
            (step matches FuseStep::Answer(Ok(_))) <==> (deleted matches Some(Ok(_))),
            deleted matches Some(Err(e)) ==> (step matches FuseStep::Answer(Err(x)) && x == e),
            step matches FuseStep::Delete(p) ==> p@.len() >= name@.len() && p@.skip(p@.len() - name@.len()) == name@,
    {
        match deleted {
            None => match fs.path_below(parent, name) {
                Ok(path) => FuseStep::Delete(path),
                Err(e) => FuseStep::Answer(Err(e)),
            },
            Some(r) => FuseStep::Answer(r),
        }
    }
}

/// The number of the root.
pub const FUSE_ROOT_INO: u64 = 1;

/// The nodes of the plain file system: every path that was seen has a number.
pub struct RemoteFS {
    paths: HashMap<u64, String>,
    next_ino: u64,
}

/// The model of the nodes.
#[verifier::ext_equal]
pub struct NodesView {
    pub paths: Map<u64, Seq<char>>,
    pub last: nat,
}

/// The number `i` stands for a path that consists of the same as `path`.
pub open spec fn is_number(v: NodesView, path: Seq<char>, i: u64) -> bool {
    v.paths.contains_key(i) && components(v.paths[i]) == components(path)
}

/// Some number stands for `path`.
pub open spec fn has_path(v: NodesView, path: Seq<char>) -> bool {
    exists|i: u64| is_number(v, path, i)
}

/// The number that stands for `path`.
pub open spec fn number_of(v: NodesView, path: Seq<char>) -> u64 {
    choose|i: u64| is_number(v, path, i)
}

/// The numbers are given out one after another, the first one for the root, and
/// no two of them stand for the same place.
pub open spec fn matched(v: NodesView) -> bool {
    &&& forall|i: u64| #[trigger] v.paths.contains_key(i) <==> FUSE_ROOT_INO <= i <= v.last
    &&& forall|i: u64, j: u64|
        #![trigger v.paths[i], v.paths[j]]
        v.paths.contains_key(i) && v.paths.contains_key(j) && components(v.paths[i]) == components(
            v.paths[j],
        ) ==> i == j
    &&& v.last >= FUSE_ROOT_INO
    &&& v.paths[FUSE_ROOT_INO] == "/"@
}

/// The nodes once `path` has a number.
pub open spec fn with_path(v: NodesView, path: Seq<char>) -> NodesView {
    if has_path(v, path) {
        v
    } else {
        NodesView { paths: v.paths.insert((v.last + 1) as u64, path), last: v.last + 1 }
    }
}

/// What looking a name up gives.
#[derive(Debug)]
pub enum NodeStep {
    /// This directory has to be listed.
    List(String),
    /// This is what was found: the number, the size, and whether it is a
    /// directory.
    Found { ino: u64, size: u64, is_dir: bool, perm: u16 },
    /// There is no such thing.
    Missing,
}

impl RemoteFS {
    /// The model.
    pub closed spec fn model(&self) -> NodesView {
        NodesView {
            paths: self.paths@.map_values(|s: String| s@),
            last: self.next_ino as nat,
        }
    }

    /// The nodes are consistent.
    pub closed spec fn wf(&self) -> bool {
        matched(self.model())
    }

    /// Consistent nodes have one number for a place.
    pub proof fn law_matched(&self)
        requires
            self.wf(),
        ensures
            matched(self.model()),
    {
    }

    /// Only the root has a number.
    pub fn new() -> (fs: Self)
        ensures
            fs.wf(),
            fs.model() == (NodesView {
                paths: Map::<u64, Seq<char>>::empty().insert(FUSE_ROOT_INO, "/"@),
                last: 1,
            }),
            fs.model().paths.contains_key(1) && fs.model().paths[1] == "/"@,
            forall|i: u64| #[trigger] fs.model().paths.contains_key(i) ==> i == 1,
    {
        let mut paths: HashMap<u64, String> = HashMap::new();
        paths.insert(FUSE_ROOT_INO, owned("/"));
        let fs = RemoteFS { paths, next_ino: FUSE_ROOT_INO };
        assert(fs.model().paths =~= Map::<u64, Seq<char>>::empty().insert(FUSE_ROOT_INO, "/"@));
        fs
    }

    /// The number of `path`: the one that the place has, or the next one.
    pub fn add_path(&mut self, path: &str) -> (ino: u64)
        requires
            old(self).wf(),
            old(self).model().last < u64::MAX,
        ensures
            final(self).wf(),
            final(self).model() == with_path(old(self).model(), path@),
            is_number(final(self).model(), path@, ino),
            ino == number_of(final(self).model(), path@),
            has_path(old(self).model(), path@) ==> final(self).model() == old(self).model() && is_number(
                old(self).model(),
                path@,
                ino,
            ),
            !has_path(old(self).model(), path@) ==> !old(self).model().paths.contains_key(ino)
                && final(self).model().paths[ino] == path@,
    {
        let wanted = components_of(path);
        let ghost before = self.model();
        let mut i: u64 = FUSE_ROOT_INO;
        while i <= self.next_ino
            invariant
                *self == *old(self),
                before == self.model(),
                self.wf(),
                self.next_ino < u64::MAX,
                FUSE_ROOT_INO <= i <= self.next_ino + 1,
                texts(wanted@) == components(path@),
                forall|k: u64| FUSE_ROOT_INO <= k < i ==> !#[trigger] is_number(before, path@, k),
            decreases self.next_ino + 1 - i,
        {
            assert(before.paths.contains_key(i));
            let known = self.path_at(i);
            let held = components_of(known.as_str());
            if same_texts(&held, &wanted) {
                assert(is_number(before, path@, i));
                proof {
                    let j = number_of(before, path@);
                    assert(is_number(before, path@, j));
                    assert(before.paths[i] == before.paths[i] && before.paths[j]
                        == before.paths[j]);
                }
                return i;
            }
            i = i + 1;
        }
        proof {
            if has_path(before, path@) {
                let k = choose|k: u64| is_number(before, path@, k);
                assert(before.paths.contains_key(k));
            }
        }
        let ino: u64 = self.next_ino + 1;
        self.next_ino = ino;
        self.paths.insert(ino, owned(path));
        let ghost after = self.model();
        assert(after =~= with_path(before, path@));
        proof {
            assert forall|x: u64, y: u64|
                #![trigger after.paths[x], after.paths[y]]
                after.paths.contains_key(x) && after.paths.contains_key(y) && components(
                    after.paths[x],
                ) == components(after.paths[y]) implies x == y by {
                if x != y {
                    if x == ino {
                        assert(is_number(before, path@, y));
                    } else if y == ino {
                        assert(is_number(before, path@, x));
                    } else {
                        assert(before.paths[x] == after.paths[x]);
                        assert(before.paths[y] == after.paths[y]);
                    }
                }
            }
            assert forall|k: u64| #[trigger] after.paths.contains_key(k) <==> FUSE_ROOT_INO <= k
                <= after.last by {
                if k != ino {
                    assert(before.paths.contains_key(k) <==> FUSE_ROOT_INO <= k <= before.last);
                }
            }
            assert(is_number(after, path@, ino));
            let j = number_of(after, path@);
            assert(is_number(after, path@, j));
            assert(after.paths[ino] == after.paths[ino] && after.paths[j] == after.paths[j]);
            assert(before.paths.contains_key(FUSE_ROOT_INO));
        }
        ino
    }

    /// Looks a name up in a directory. `entries` is what listing the directory
    /// gave, with `None` within for a failure.
    pub fn lookup(&mut self, parent: u64, name: &str, entries: Option<Option<Vec<DirEntry>>>) -> (
    step: NodeStep)
        requires
            old(self).wf(),
            old(self).model().paths.contains_key(parent),
            old(self).model().last < u64::MAX,
        ensures
            final(self).wf(),
            ({
                let dir = old(self).model().paths[parent];
                match entries {
                    None => step matches NodeStep::List(p) && p@ == dir && final(self).model()
                        == old(self).model(),
                    Some(None) => step is Missing && final(self).model() == old(self).model(),
                    Some(Some(all)) => match position_named(all@, name@) {
                        None => step is Missing && final(self).model() == old(self).model(),
                        Some(k) => {
                            let path = joined(dir, name@);
                            &&& final(self).model() == with_path(old(self).model(), path)
                            &&& step matches NodeStep::Found { ino, size, is_dir, perm }
                            &&& ino == number_of(final(self).model(), path)
                            &&& size == all@[k].size
                            &&& is_dir == all@[k].is_dir
                            &&& perm == (if all@[k].is_dir {
                                0o755u16
                            } else {
                                0o644u16
                            })
                        },
                    },
                }
            }),
            step matches NodeStep::Found { ino, size, is_dir, .. } ==> (entries matches Some(Some(all)) && exists|
                k: int,
            |
                0 <= k < all@.len() && (#[trigger] all@[k]).name@ == name@ && all@[k].size == size
                    && all@[k].is_dir == is_dir),
            (step is Missing) <==> ((entries matches Some(None)) || (entries matches Some(Some(all)) && forall|
                k: int,
            |
                0 <= k < all@.len() ==> (#[trigger] all@[k]).name@ != name@)),
    {
        let dir = self.path_at(parent);
        let all = match entries {
            None => {
                return NodeStep::List(dir);
            },
            Some(None) => {
                return NodeStep::Missing;
            },
            Some(Some(all)) => all,
        };
        match find_named(&all, name) {
            None => NodeStep::Missing,
            Some(k) => {
                let path = join_path(dir.as_str(), name);
                let ino: u64 = self.add_path(path.as_str());
                NodeStep::Found {
                    ino,
                    size: all[k].size,
                    is_dir: all[k].is_dir,
                    perm: if all[k].is_dir {
                        0o755
                    } else {
                        0o644
                    },
                }
            },
        }
    }

    /// Whether a number stands for a path.
    pub fn knows(&self, ino: u64) -> (r: bool)
        requires
            self.wf(),
        ensures
            r == self.model().paths.contains_key(ino),
    {
        self.paths.contains_key(&ino)
    }

    /// The path of a node that has a number.
    pub fn path_at(&self, ino: u64) -> (path: String)
        requires
            self.wf(),
            self.model().paths.contains_key(ino),
        ensures
            path@ == self.model().paths[ino],
    {
        match self.paths.get(&ino) {
            Some(p) => p.clone(),
            None => String::new(),
        }
    }

    /// The bytes of a file, all of them. Whatever stands in the way, the answer
    /// is that there is no such thing.
    pub fn read(&self, ino: u64, data: Option<Option<Vec<u8>>>) -> (step: FuseStep<Vec<u8>>)
        requires
            self.wf(),
            self.model().paths.contains_key(ino),
        ensures
            match data {
                None => step matches FuseStep::Read(p) && p@ == self.model().paths[ino],
                Some(Some(bytes)) => step == FuseStep::Answer(Ok::<Vec<u8>, Errno>(bytes)),
                Some(None) => answers_missing(step),
            },
            step matches FuseStep::Answer(Ok(b)) ==> (data matches Some(Some(bytes)) && b@.len() == bytes@.len()
                && forall|i: int| 0 <= i < bytes@.len() ==> #[trigger] b@[i] == bytes@[i]),
    {
        match data {
            None => FuseStep::Read(self.path_at(ino)),
            Some(Some(bytes)) => FuseStep::Answer(Ok(bytes)),
            Some(None) => FuseStep::Answer(Err(Errno::NoEnt)),
        }
    }

    /// Begins with the lines of a directory, at offset zero; behind it there are
    /// none. The first two lines are given at once, and the directory to be listed
    /// for the others, which are to be asked for one by one for as long as they
    /// are taken. A path that consists of nothing lies in no directory.
    pub fn readdir(&mut self, ino: u64, offset: i64) -> (r: Option<NodeListing>)
        requires
            old(self).wf(),
            old(self).model().paths.contains_key(ino),
            old(self).model().last < u64::MAX,
            components(old(self).model().paths[ino]).len() > 0,
        ensures
            final(self).wf(),
            if offset != 0 {
                r is None && final(self).model() == old(self).model()
            } else {
                let dir = old(self).model().paths[ino];
                &&& final(self).model() == (if ino == FUSE_ROOT_INO {
                    old(self).model()
                } else {
                    with_path(old(self).model(), directory_of(dir))
                })
                &&& r matches Some(l)
                &&& l.path@ == dir
                &&& l.lines@.len() == 2
                &&& line_is(l.lines@[0], ino, 0, FileType::Directory, "."@)
                &&& line_is(
                    l.lines@[1],
                    if ino == FUSE_ROOT_INO {
                        FUSE_ROOT_INO
                    } else {
                        number_of(final(self).model(), directory_of(dir))
                    },
                    1,
                    FileType::Directory,
                    ".."@,
                )
            },
    {
        if offset != 0 {
            return None;
        }
        let path = self.path_at(ino);
        let mut lines: Vec<DirLine> = Vec::new();
        lines.push(
            DirLine { ino, next_offset: 0, kind: FileType::Directory, name: owned(".") },
        );
        let parent: u64 = if ino == FUSE_ROOT_INO {
            FUSE_ROOT_INO
        } else {
            let chars = chars_of(path.as_str());
            let n: usize = directory_len(&chars);
            let up = string_of(&chars, 0, n);
            assert(up@ =~= directory_of(path@));
            self.add_path(up.as_str())
        };
        lines.push(
            DirLine { ino: parent, next_offset: 1, kind: FileType::Directory, name: owned("..") },
        );
        Some(NodeListing { path, lines })
    }

    /// The line of the entry number `k` of the directory `dir`. Its path gets a
    /// number, if it has none yet.
    pub fn entry(&mut self, dir: &str, k: usize, entry: &DirEntry) -> (line: DirLine)
        requires
            old(self).wf(),
            old(self).model().last < u64::MAX,
            k + 2 <= u64::MAX,
        ensures
            final(self).wf(),
            final(self).model() == with_path(old(self).model(), joined(dir@, entry.name@)),
            line_is(
                line,
                number_of(final(self).model(), joined(dir@, entry.name@)),
                k + 2,
                if entry.is_dir {
                    FileType::Directory
                } else {
                    FileType::RegularFile
                },
                entry.name@,
            ),
            line.name@ == entry.name@,
            line.kind == FileType::Directory <==> entry.is_dir,
            line.next_offset == k + 2,
    {
        let path = join_path(dir, entry.name.as_str());
        let ino: u64 = self.add_path(path.as_str());
        DirLine {
            ino,
            next_offset: k as u64 + 2,
            kind: if entry.is_dir {
                FileType::Directory
            } else {
                FileType::RegularFile
            },
            name: entry.name.clone(),
        }
    }
}

/// The first lines of a directory, and the path to be listed for the others.
#[derive(Debug)]
pub struct NodeListing {
    pub path: String,
    pub lines: Vec<DirLine>,
}

/// A place keeps its number whatever else gets one, and different places have
/// different numbers.
pub proof fn law_node_numbers(v: NodesView, p: Seq<char>, q: Seq<char>)
    requires
        matched(v),
        v.last < u64::MAX,
        has_path(v, p),
    ensures
        has_path(with_path(v, q), p),
        number_of(with_path(v, q), p) == number_of(v, p),
        has_path(v, q) && components(p) != components(q) ==> number_of(v, p) != number_of(v, q),
        components(p) == components(q) ==> number_of(v, p) == number_of(v, q) && with_path(v, q)
            == v,
{
    let i = number_of(v, p);
    assert(is_number(v, p, i));
    assert(v.paths.contains_key(i));
    let after = with_path(v, q);
    assert(is_number(after, p, i));
    let j = number_of(after, p);
    assert(is_number(after, p, j));
    if components(p) == components(q) {
        assert(is_number(v, q, i));
        let k = number_of(v, q);
        assert(is_number(v, q, k));
        assert(v.paths[i] == v.paths[i] && v.paths[k] == v.paths[k]);
    }
    if has_path(v, q) {
        assert(is_number(v, q, number_of(v, q)));
        assert(v.paths[i] == v.paths[i] && v.paths[j] == v.paths[j]);
    } else if j == v.last + 1 {
        assert(after.paths[j] == q);
        assert(is_number(v, q, i));
    } else {
        assert(v.paths[i] == v.paths[i] && v.paths[j] == v.paths[j]);
    }
}

/// The attributes of a file are those that the server told: its size, its time,
/// whether it is a directory, and its permission bits where they can be read, with
/// the number and the owner that it is given here.
pub proof fn law_attr(ino: u64, info: FileInfo, uid: u32, gid: u32)
    ensures
        attr_of(ino, info, uid, gid).ino == ino,
        attr_of(ino, info, uid, gid).size == info.size,
        attr_of(ino, info, uid, gid).time == info.timestamp,
        attr_of(ino, info, uid, gid).uid == uid,
        attr_of(ino, info, uid, gid).gid == gid,
        attr_of(ino, info, uid, gid).kind == FileType::Directory <==> info.file_type@ == "dir"@,
        attr_of(ino, info, uid, gid).nlink == 2 <==> info.file_type@ == "dir"@,
        info.size <= 512 * attr_of(ino, info, uid, gid).blocks < info.size + 512,
        parsed_within(info.permissions@, 8, 0xffff) matches Some(n) ==> attr_of(
            ino,
            info,
            uid,
            gid,
        ).perm == n,
        parsed_within(info.permissions@, 8, 0xffff) is None ==> attr_of(ino, info, uid, gid).perm
            == 493,
{
}

/// Two files that are told to be of different sizes, or at different times, or of
/// different kinds, have attributes that differ in just that way.
pub proof fn law_attrs_differ(ino: u64, a: FileInfo, b: FileInfo, uid: u32, gid: u32)
    ensures
        attr_of(ino, a, uid, gid).size == attr_of(ino, b, uid, gid).size <==> a.size == b.size,
        attr_of(ino, a, uid, gid).time == attr_of(ino, b, uid, gid).time <==> a.timestamp
            == b.timestamp,
        attr_of(ino, a, uid, gid).kind == attr_of(ino, b, uid, gid).kind <==> (a.file_type@
            == "dir"@ <==> b.file_type@ == "dir"@),
{
}

/// The permission bits that three digits in base eight stand for are read as they
/// are written.
pub proof fn law_perm_digits(a: char, b: char, c: char)
    requires
        '0' <= a <= '7',
        '0' <= b <= '7',
        '0' <= c <= '7',
    ensures
        perm_for(seq![a, b, c]) == (a as u32 - 48) * 64 + (b as u32 - 48) * 8 + (c as u32 - 48),
{
    crate::numeral::law_octal(a, b, c);
}

/// The answer to a request for attributes is the one for the metadata that came,
/// and it is one if and only if metadata came; any failure is passed on.
pub proof fn law_told(
    adapter: FuseAdapter,
    step: FuseStep<FileAttr>,
    stat: Result<(u64, FileInfo), Errno>,
)
    requires
        adapter.told(step, stat),
    ensures
        stat matches Ok(known) ==> (step matches FuseStep::Answer(Ok(a)) && a.ino == known.0
            && a.size == known.1.size && a.time == known.1.timestamp && a.uid == adapter.uid
            && a.gid == adapter.gid && (a.kind == FileType::Directory <==> known.1.file_type@
            == "dir"@)),
        stat matches Err(e) ==> (step matches FuseStep::Answer(Err(x)) && x == e),
{
}

/// What became of an operation is what the system is answered.
pub proof fn law_passed_on(step: FuseStep<()>, done: Result<(), Errno>)
    requires
        passed_on(step, done),
    ensures
        done is Ok <==> (step matches FuseStep::Answer(Ok(_))),
        done matches Err(e) ==> (step matches FuseStep::Answer(Err(x)) && x == e),
{
}

/// The lines of a directory are its own, that of the directory above it, and one
/// for each entry in order, with the number, the name and the kind of the entry;
/// each says where the next one is found.
pub proof fn law_directory_lines(
    lines: Seq<DirLine>,
    offset: int,
    ino: u64,
    parent: u64,
    entries: Seq<(u64, FileInfo)>,
)
    requires
        lines_from(lines, offset, ino, parent, entries),
        0 <= offset,
    ensures
        lines.len() == (if offset <= entries.len() + 2 {
            entries.len() + 2 - offset
        } else {
            0
        }),
        offset == 0 ==> lines[0].name@ == "."@ && lines[0].ino == ino && lines[0].next_offset == 1
            && lines[1].name@ == ".."@ && lines[1].ino == parent && lines[1].next_offset == 2,
        forall|k: int|
            0 <= k < entries.len() && offset <= k + 2 ==> lines[k + 2 - offset].name@ == (
            #[trigger] entries[k]).1.name@ && lines[k + 2 - offset].ino == entries[k].0 && lines[k
                + 2 - offset].next_offset == k + 3 && (lines[k + 2 - offset].kind
                == FileType::Directory <==> entries[k].1.file_type@ == "dir"@),
{
    if offset == 0 {
        assert(nth_line(lines[0], offset + 0, ino, parent, entries));
        assert(nth_line(lines[1], offset + 1, ino, parent, entries));
    }
    assert forall|k: int| 0 <= k < entries.len() && offset <= k + 2 implies lines[k + 2
        - offset].name@ == (#[trigger] entries[k]).1.name@ && lines[k + 2 - offset].ino
        == entries[k].0 && lines[k + 2 - offset].next_offset == k + 3 && (lines[k + 2 - offset].kind
        == FileType::Directory <==> entries[k].1.file_type@ == "dir"@) by {
        let j = k + 2 - offset;
        assert(nth_line(lines[j], offset + j, ino, parent, entries));
        assert(offset + j - 2 == k);
    }
}

/// A path that gets a number is found under it, and the numbers that stood for
/// other paths stand for them still.
pub proof fn law_path_is_kept(v: NodesView, path: Seq<char>, i: u64)
    requires
        matched(v),
        v.last < u64::MAX,
    ensures
        has_path(with_path(v, path), path),
        v.paths.contains_key(i) ==> with_path(v, path).paths.contains_key(i) && with_path(
            v,
            path,
        ).paths[i] == v.paths[i],
        !has_path(v, path) ==> with_path(v, path).last == v.last + 1,
{
    if !has_path(v, path) {
        assert(is_number(with_path(v, path), path, (v.last + 1) as u64));
        assert(v.paths.contains_key((v.last + 1) as u64) <==> FUSE_ROOT_INO <= (v.last + 1) as u64
            <= v.last);
    }
}

} // verus!
