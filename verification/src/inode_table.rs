//! The tables of a mounted file system: what is known of each node, which
//! handles are open, and which lock a path has.

use std::collections::HashMap;

use vstd::prelude::*;
use vstd::string::*;

use crate::api::FileEntry;
use crate::cache::METADATA_CACHE_TTL;
use crate::clock::{expired, has_expired, Clock};
use crate::table::PathTable;
use crate::text::{owned, same_text};

verus! {

broadcast use vstd::std_specs::hash::group_hash_axioms;

/// The number of the root.
pub const ROOT: u64 = 1;

/// What a node is.
#[derive(Debug, Clone, Copy, PartialEq, Eq, Structural)]
pub enum FileType {
    Directory,
    RegularFile,
}

/// The attributes of a node. The times are the bit patterns of floating-point
/// seconds since the epoch.
#[derive(Debug, Clone, Copy, PartialEq, Eq, Structural)]
pub struct Attr {
    pub ino: u64,
    pub size: u64,
    pub blocks: u64,
    pub mtime: u64,
    pub ctime: u64,
    pub kind: FileType,
    pub perm: u16,
    pub nlink: u32,
    pub uid: u32,
    pub gid: u32,
}

/// A node: where it is, its attributes, and when these were learnt.
#[derive(Debug)]
pub struct Inode {
    pub path: String,
    pub attr: Attr,
    pub cached_at: i64,
}

impl Clone for Inode {
    fn clone(&self) -> (r: Self)
        ensures
            r == *self,
    {
        Inode { path: self.path.clone(), attr: self.attr, cached_at: self.cached_at }
    }
}

impl Inode {
    /// The attributes are too old at `now`.
    pub open spec fn expired_at(&self, now: int) -> bool {
        expired(self.cached_at as int, METADATA_CACHE_TTL as int, now)
    }

    /// Whether the attributes are too old at `now`.
    pub fn is_metadata_expired_at(&self, now: i64) -> (r: bool)
        ensures
            r == self.expired_at(now as int),
            r <==> self.cached_at + METADATA_CACHE_TTL < now,
            r <==> now - self.cached_at > 5_000_000_000,
    {
        has_expired(self.cached_at, METADATA_CACHE_TTL, now)
    }

    /// Whether the attributes are too old by now.
    pub fn is_metadata_expired(&self, clock: &Clock) -> (r: bool)
        ensures
            exists|now: i64| now >= 0 && r == #[trigger] self.expired_at(now as int),
    {
        let now: i64 = clock.now();
        self.is_metadata_expired_at(now)
    }
}

/// The permission bits to show for the mode of an entry: those for owner, group
/// and others, where there are any, and usual ones otherwise. The owner of a
/// directory can always use it.
pub open spec fn shown_perm(mode: u32, is_dir: bool) -> u16 {
    let bits = (mode & 0o777) as u16;
    if is_dir {
        if bits == 0 {
            0o755
        } else {
            bits | 0o700
        }
    } else if bits == 0 {
        0o644
    } else {
        bits
    }
}

/// The number of blocks of 512 bytes that hold `size` bytes.
pub open spec fn blocks_for(size: nat) -> nat {
    (size + 511) / 512
}

/// The attributes of an entry.
pub open spec fn attr_for(ino: u64, entry: FileEntry, uid: u32, gid: u32) -> Attr {
    Attr {
        ino,
        size: entry.size,
        blocks: blocks_for(entry.size as nat) as u64,
        mtime: entry.mtime,
        ctime: entry.ctime,
        kind: if entry.is_dir {
            FileType::Directory
        } else {
            FileType::RegularFile
        },
        perm: shown_perm(entry.mode, entry.is_dir),
        nlink: if entry.is_dir {
            2
        } else {
            1
        },
        uid,
        gid,
    }
}

/// The number of blocks of 512 bytes that hold `size` bytes.
pub fn block_count(size: u64) -> (n: u64)
    ensures
        n == blocks_for(size as nat),
        size <= 512 * n < size + 512,
{
    if size % 512 == 0 {
        size / 512
    } else {
        size / 512 + 1
    }
}

/// The permission bits to show.
fn perm_of(mode: u32, is_dir: bool) -> (perm: u16)
    ensures
        perm == shown_perm(mode, is_dir),
        perm == 0 ==> false,
        !is_dir && mode & 0o777 != 0 ==> perm == mode & 0o777,
        is_dir ==> perm & 0o700 == 0o700,
{
    let bits: u16 = (mode & 0o777) as u16;
    proof {
        lemma_perm_bits(mode);
    }
    if is_dir {
        if bits == 0 {
            0o755
        } else {
            bits | 0o700
        }
    } else if bits == 0 {
        0o644
    } else {
        bits
    }
}

/// What the bits of a mode are made of.
proof fn lemma_perm_bits(mode: u32)
    ensures
        (mode & 0o777) as u16 == mode & 0o777,
        ((mode & 0o777) as u16 | 0o700) & 0o700 == 0o700,
        ((mode & 0o777) as u16 | 0o700) != 0,
        ((mode & 0o777) as u16 | 0o700) & 0o77 == mode & 0o77,
        0o755u16 & 0o700 == 0o700,
        mode & 0o777 <= 0o777,
{
    assert((mode & 0o777) as u16 == mode & 0o777) by (bit_vector);
    assert(((mode & 0o777) as u16 | 0o700) & 0o700 == 0o700) by (bit_vector);
    assert(((mode & 0o777) as u16 | 0o700) != 0) by (bit_vector);
    assert(((mode & 0o777) as u16 | 0o700) & 0o77 == mode & 0o77) by (bit_vector);
    assert(0o755u16 & 0o700 == 0o700) by (bit_vector);
    assert(mode & 0o777 <= 0o777) by (bit_vector);
}

/// The attributes of an entry.
fn attr_of(ino: u64, entry: &FileEntry, uid: u32, gid: u32) -> (attr: Attr)
    ensures
        attr == attr_for(ino, *entry, uid, gid),
        attr.ino == ino && attr.size == entry.size && attr.uid == uid && attr.gid == gid,
        attr.mtime == entry.mtime && attr.ctime == entry.ctime,
        attr.kind == FileType::Directory <==> entry.is_dir,
        entry.size <= 512 * attr.blocks < entry.size + 512,
        attr.nlink == (if entry.is_dir {
            2u32
        } else {
            1u32
        }),
        !entry.is_dir && entry.mode & 0o777 != 0 ==> attr.perm == entry.mode & 0o777,
        entry.is_dir ==> attr.perm & 0o700 == 0o700,
{
    Attr {
        ino,
        size: entry.size,
        blocks: block_count(entry.size),
        mtime: entry.mtime,
        ctime: entry.ctime,
        kind: if entry.is_dir {
            FileType::Directory
        } else {
            FileType::RegularFile
        },
        perm: perm_of(entry.mode, entry.is_dir),
        nlink: if entry.is_dir {
            2
        } else {
            1
        },
        uid,
        gid,
    }
}

/// What is known of each node.
pub struct InodeTable {
    pub path_to_ino: PathTable<u64>,
    pub inodes: HashMap<u64, Inode>,
    pub next_ino: u64,
    pub uid: u32,
    pub gid: u32,
    pub clock: Clock,
}

/// The model of the table.
#[verifier::ext_equal]
pub struct TableView {
    pub numbers: Map<Seq<char>, u64>,
    pub nodes: Map<u64, Inode>,
    pub next: nat,
    pub uid: u32,
    pub gid: u32,
}

/// Paths and numbers stand for each other one to one, and no number was given
/// out that is yet to come.
pub open spec fn paired(v: TableView) -> bool {
    &&& forall|p: Seq<char>| #[trigger]
        v.numbers.contains_key(p) ==> v.nodes.contains_key(v.numbers[p])
            && v.nodes[v.numbers[p]].path@ == p
    &&& forall|i: u64| #[trigger]
        v.nodes.contains_key(i) ==> i < v.next && v.numbers.contains_key(v.nodes[i].path@)
            && v.numbers[v.nodes[i].path@] == i
}

/// `after` is `before` once the entry at `path` was learnt at `now`: a path that
/// has a number keeps it.
pub open spec fn learnt(
    before: TableView,
    after: TableView,
    path: Seq<char>,
    entry: FileEntry,
    now: i64,
) -> bool {
    let ino = if before.numbers.contains_key(path) {
        before.numbers[path]
    } else {
        before.next as u64
    };
    &&& after.numbers == before.numbers.insert(path, ino)
    &&& after.nodes.dom() == before.nodes.dom().insert(ino)
    &&& after.nodes[ino].path@ == path
    &&& after.nodes[ino].attr == attr_for(ino, entry, before.uid, before.gid)
    &&& after.nodes[ino].cached_at == now
    &&& forall|i: u64| #[trigger]
        before.nodes.contains_key(i) && i != ino ==> after.nodes[i] == before.nodes[i]
    &&& after.next == (if before.numbers.contains_key(path) {
        before.next
    } else {
        before.next + 1
    })
    &&& after.uid == before.uid
    &&& after.gid == before.gid
}

/// The table without the node at `path`.
pub open spec fn dropped(v: TableView, path: Seq<char>) -> TableView {
    if v.numbers.contains_key(path) {
        TableView {
            numbers: v.numbers.remove(path),
            nodes: v.nodes.remove(v.numbers[path]),
            ..v
        }
    } else {
        v
    }
}

/// `after` is `before` once the node at `old_path` went to `new_path`: it keeps
/// its number, and what was at `new_path` is gone.
pub open spec fn relocated(
    before: TableView,
    after: TableView,
    old_path: Seq<char>,
    new_path: Seq<char>,
) -> bool {
    if !before.numbers.contains_key(old_path) || old_path == new_path {
        after == before
    } else {
        let ino = before.numbers[old_path];
        let rest = dropped(dropped(before, new_path), old_path);
        &&& after.numbers == rest.numbers.insert(new_path, ino)
        &&& after.nodes.dom() == rest.nodes.dom().insert(ino)
        &&& after.nodes[ino].path@ == new_path
        &&& after.nodes[ino].attr == before.nodes[ino].attr
        &&& after.nodes[ino].cached_at == before.nodes[ino].cached_at
        &&& forall|i: u64| #[trigger] rest.nodes.contains_key(i) ==> after.nodes[i] == rest.nodes[i]
        &&& after.next == before.next
        &&& after.uid == before.uid
        &&& after.gid == before.gid
    }
}

/// The path of `name` in the directory at `parent`.
pub open spec fn path_in(parent: Seq<char>, name: Seq<char>) -> Seq<char> {
    if parent == "/"@ {
        "/"@ + name
    } else {
        parent + "/"@ + name
    }
}

impl InodeTable {
    /// The model.
    pub open spec fn model(&self) -> TableView {
        TableView {
            numbers: self.path_to_ino@,
            nodes: self.inodes@,
            next: self.next_ino as nat,
            uid: self.uid,
            gid: self.gid,
        }
    }

    /// The table is consistent.
    pub open spec fn wf(&self) -> bool {
        self.path_to_ino.wf() && paired(self.model())
    }

    /// A table with the root alone.
    pub fn new(uid: u32, gid: u32) -> (t: Self)
        ensures
            t.wf(),
            t.model().uid == uid,
            t.model().gid == gid,
            t.model().next == 2,
            t.model().numbers == Map::<Seq<char>, u64>::empty().insert("/"@, ROOT),
            t.model().nodes.dom() == Set::<u64>::empty().insert(ROOT),
            t.model().nodes[ROOT].path@ == "/"@,
            t.model().nodes[ROOT].cached_at >= 0,
            t.model().nodes[ROOT].attr == (Attr {
                ino: ROOT,
                size: 0,
                blocks: 0,
                mtime: 0,
                ctime: 0,
                kind: FileType::Directory,
                perm: 0o755,
                nlink: 2,
                uid,
                gid,
            }),
            t.model().numbers.contains_key("/"@) && t.model().numbers["/"@] == 1,
            t.model().nodes.contains_key(1) && t.model().nodes[1].attr.kind == FileType::Directory
                && t.model().nodes[1].attr.perm == 0o755,
    {
        let clock = Clock::start();
        let now: i64 = clock.now();
        let attr = Attr {
            ino: ROOT,
            size: 0,
            blocks: 0,
            mtime: 0,
            ctime: 0,
            kind: FileType::Directory,
            perm: 0o755,
            nlink: 2,
            uid,
            gid,
        };
        let mut inodes: HashMap<u64, Inode> = HashMap::new();
        inodes.insert(ROOT, Inode { path: owned("/"), attr, cached_at: now });
        let mut path_to_ino: PathTable<u64> = PathTable::new();
        path_to_ino.insert(owned("/"), ROOT);
        let t = InodeTable { path_to_ino, inodes, next_ino: 2, uid, gid, clock };
        assert(t.model().nodes.dom() =~= Set::<u64>::empty().insert(ROOT));
        t
    }

    /// What is known of a node.
    pub fn get(&self, ino: u64) -> (r: Option<&Inode>)
        ensures
            match r {
                Some(n) => self.model().nodes.contains_key(ino) && *n == self.model().nodes[ino],
                None => !self.model().nodes.contains_key(ino),
            },
    {
        self.inodes.get(&ino)
    }

    /// A copy of what is known of a node.
    pub fn get_cloned(&self, ino: u64) -> (r: Option<Inode>)
        ensures
            match r {
                Some(n) => self.model().nodes.contains_key(ino) && n == self.model().nodes[ino],
                None => !self.model().nodes.contains_key(ino),
            },
    {
        match self.inodes.get(&ino) {
            Some(n) => Some(n.clone()),
            None => None,
        }
    }

    /// Takes note of the entry at `path`, seen at `now`.
    pub fn get_or_create_at(&mut self, path: &str, entry: &FileEntry, now: i64) -> (ino: u64)
        requires
            old(self).wf(),
            old(self).model().next < u64::MAX,
        ensures
            final(self).wf(),
            learnt(old(self).model(), final(self).model(), path@, *entry, now),
            ino == final(self).model().numbers[path@],
            old(self).model().numbers.contains_key(path@) ==> ino == old(self).model().numbers[path@],
            final(self).model().nodes.contains_key(ino),
            final(self).model().nodes[ino].path@ == path@,
            final(self).model().nodes[ino].attr.ino == ino,
            final(self).model().nodes[ino].attr.size == entry.size,
            final(self).model().nodes[ino].attr.kind == FileType::Directory <==> entry.is_dir,
            final(self).model().nodes[ino].cached_at == now,
    {
        let found: Option<u64> = match self.path_to_ino.get(path) {
            Some(i) => Some(*i),
            None => None,
        };
        let ino: u64 = match found {
            Some(i) => i,
            None => {
                let i: u64 = self.next_ino;
                self.next_ino = i + 1;
                i
            },
        };
        let attr = attr_of(ino, entry, self.uid, self.gid);
        self.inodes.insert(ino, Inode { path: owned(path), attr, cached_at: now });
        self.path_to_ino.insert(owned(path), ino);
        assert(self.model().nodes.dom() =~= old(self).model().nodes.dom().insert(ino));
        assert forall|i: u64| #[trigger] self.model().nodes.contains_key(i) implies i
            < self.model().next && self.model().numbers.contains_key(
            self.model().nodes[i].path@,
        ) && self.model().numbers[self.model().nodes[i].path@] == i by {
            if i != ino {
                assert(old(self).model().nodes.contains_key(i));
            }
        }
        ino
    }

    /// Takes note of the entry at `path`, seen now.
    pub fn get_or_create(&mut self, path: &str, entry: &FileEntry) -> (ino: u64)
        requires
            old(self).wf(),
            old(self).model().next < u64::MAX,
        ensures
            final(self).wf(),
            exists|now: i64|
                now >= 0 && #[trigger] learnt(
                    old(self).model(),
                    final(self).model(),
                    path@,
                    *entry,
                    now,
                ),
            ino == final(self).model().numbers[path@],
    {
        let now: i64 = self.clock.now();
        self.get_or_create_at(path, entry, now)
    }

    /// The path of `name` in the directory `parent`.
    pub fn child_path(&self, parent: u64, name: &str) -> (r: Option<String>)
        ensures
            match r {
                Some(p) => self.model().nodes.contains_key(parent) && p@ == path_in(
                    self.model().nodes[parent].path@,
                    name@,
                ),
                None => !self.model().nodes.contains_key(parent),
            },
    {
        match self.inodes.get(&parent) {
            Some(n) => {
                let mut p = if same_text(n.path.as_str(), "/") {
                    owned("/")
                } else {
                    let mut q = n.path.clone();
                    q.append("/");
                    q
                };
                p.append(name);
                Some(p)
            },
            None => None,
        }
    }

    /// Forgets the node at `path`.
    pub fn remove_by_path(&mut self, path: &str)
        requires
            old(self).wf(),
        ensures
            final(self).wf(),
            final(self).model() == dropped(old(self).model(), path@),
            !final(self).model().numbers.contains_key(path@),
    {
        if let Some(ino) = self.path_to_ino.remove(path) {
            self.inodes.remove(&ino);
            assert(old(self).model().nodes[ino].path@ == path@);
            assert(self.model().nodes =~= old(self).model().nodes.remove(ino));
            assert forall|i: u64| #[trigger] self.model().nodes.contains_key(i) implies i
                < self.model().next && self.model().numbers.contains_key(
                self.model().nodes[i].path@,
            ) && self.model().numbers[self.model().nodes[i].path@] == i by {
                assert(old(self).model().nodes.contains_key(i));
            }
            assert forall|p: Seq<char>| #[trigger]
                self.model().numbers.contains_key(p) implies self.model().nodes.contains_key(
                self.model().numbers[p],
            ) && self.model().nodes[self.model().numbers[p]].path@ == p by {
                assert(old(self).model().numbers.contains_key(p));
            }
        } else {
            assert(old(self).model().numbers.remove(path@) =~= old(self).model().numbers);
        }
    }

    /// Notes that the node at `old_path` is at `new_path`.
    pub fn rename(&mut self, old_path: &str, new_path: &str)
        requires
            old(self).wf(),
        ensures
            final(self).wf(),
            relocated(old(self).model(), final(self).model(), old_path@, new_path@),
            old(self).model().numbers.contains_key(old_path@) && old_path@ != new_path@
                ==> final(self).model().numbers.contains_key(new_path@) && final(self).model().numbers[new_path@]
                == old(self).model().numbers[old_path@] && !final(self).model().numbers.contains_key(old_path@),
    {
        if same_text(old_path, new_path) || !self.path_to_ino.contains_key(old_path) {
            return;
        }
        let ghost before = self.model();
        self.remove_by_path(new_path);
        let ghost cleared = self.model();
        assert(cleared == dropped(before, new_path@));
        if let Some(ino) = self.path_to_ino.remove(old_path) {
            assert(before.numbers.contains_key(old_path@));
            assert(cleared.numbers.contains_key(old_path@));
            assert(cleared.nodes.contains_key(ino));
            if let Some(mut node) = self.inodes.remove(&ino) {
                node.path = owned(new_path);
                self.inodes.insert(ino, node);
            }
            self.path_to_ino.insert(owned(new_path), ino);
            let ghost rest = dropped(cleared, old_path@);
            assert(self.model().numbers =~= rest.numbers.insert(new_path@, ino));
            assert(self.model().nodes.dom() =~= rest.nodes.dom().insert(ino));
            assert forall|i: u64| #[trigger] self.model().nodes.contains_key(i) implies i
                < self.model().next && self.model().numbers.contains_key(
                self.model().nodes[i].path@,
            ) && self.model().numbers[self.model().nodes[i].path@] == i by {
                if i != ino {
                    assert(cleared.nodes.contains_key(i));
                    assert(cleared.numbers[cleared.nodes[i].path@] == i);
                }
            }
            assert forall|p: Seq<char>| #[trigger]
                self.model().numbers.contains_key(p) implies self.model().nodes.contains_key(
                self.model().numbers[p],
            ) && self.model().nodes[self.model().numbers[p]].path@ == p by {
                if p != new_path@ {
                    assert(cleared.numbers.contains_key(p));
                }
            }
        }
    }

    /// Makes the attributes of the node at `path` count as too old.
    pub fn invalidate_metadata(&mut self, path: &str)
        requires
            old(self).wf(),
        ensures
            final(self).wf(),
            final(self).model().numbers == old(self).model().numbers,
            final(self).model().nodes.dom() == old(self).model().nodes.dom(),
            forall|i: u64| #[trigger]
                old(self).model().nodes.contains_key(i) ==> {
                    let was = old(self).model().nodes[i];
                    let is = final(self).model().nodes[i];
                    &&& is.path@ == was.path@
                    &&& is.attr == was.attr
                    &&& is.cached_at == (if was.path@ == path@ {
                        i64::MIN
                    } else {
                        was.cached_at
                    })
                },
            final(self).model().next == old(self).model().next,
            final(self).model().uid == old(self).model().uid,
            final(self).model().gid == old(self).model().gid,
    {
        let found: Option<u64> = match self.path_to_ino.get(path) {
            Some(i) => Some(*i),
            None => None,
        };
        if let Some(ino) = found {
            if let Some(mut node) = self.inodes.remove(&ino) {
                node.cached_at = i64::MIN;
                self.inodes.insert(ino, node);
            }
        }
        assert(self.model().nodes.dom() =~= old(self).model().nodes.dom());
        assert forall|i: u64| #[trigger] self.model().nodes.contains_key(i) implies i
            < self.model().next && self.model().numbers.contains_key(
            self.model().nodes[i].path@,
        ) && self.model().numbers[self.model().nodes[i].path@] == i by {
            assert(old(self).model().nodes.contains_key(i));
        }
    }
}

/// Attributes that were invalidated count as too old at every moment from the
/// start of the clock on.
pub proof fn law_invalidated_is_expired(node: Inode, now: int)
    requires
        node.cached_at == i64::MIN,
        now >= 0,
    ensures
        node.expired_at(now),
{
}

/// The open handles, by their numbers.
pub struct FileHandleTable {
    pub handles: HashMap<u64, String>,
    pub next_handle: u64,
}

impl FileHandleTable {
    /// No open handle has a number that is yet to come.
    pub open spec fn wf(&self) -> bool {
        forall|h: u64| #[trigger] self.handles@.contains_key(h) ==> 0 < h < self.next_handle
    }

    /// The paths of the open handles.
    pub open spec fn paths(&self) -> Map<u64, Seq<char>> {
        self.handles@.map_values(|s: String| s@)
    }

    /// No handle is open.
    pub fn new() -> (t: Self)
        ensures
            t.wf(),
            t.paths() == Map::<u64, Seq<char>>::empty(),
            t.next_handle == 1,
    {
        let t = FileHandleTable { handles: HashMap::new(), next_handle: 1 };
        assert(t.paths() =~= Map::<u64, Seq<char>>::empty());
        t
    }

    /// Opens `path`: its handle has a number that no handle had before.
    pub fn open(&mut self, path: String) -> (h: u64)
        requires
            old(self).wf(),
            0 < old(self).next_handle < u64::MAX,
        ensures
            final(self).wf(),
            h == old(self).next_handle,
            final(self).next_handle == h + 1,
            !old(self).paths().contains_key(h),
            final(self).paths() == old(self).paths().insert(h, path@),
            final(self).paths().contains_key(h) && final(self).paths()[h] == path@,
            forall|k: u64| #[trigger]
                old(self).paths().contains_key(k) ==> final(self).paths().contains_key(k)
                    && final(self).paths()[k] == old(self).paths()[k],
    {
        let h: u64 = self.next_handle;
        self.next_handle = h + 1;
        self.handles.insert(h, path);
        assert(self.paths() =~= old(self).paths().insert(h, path@));
        h
    }

    /// Closes a handle.
    pub fn close(&mut self, h: u64)
        requires
            old(self).wf(),
        ensures
            final(self).wf(),
            final(self).next_handle == old(self).next_handle,
            final(self).paths() == old(self).paths().remove(h),
            !final(self).paths().contains_key(h),
            forall|k: u64|
                k != h && #[trigger] old(self).paths().contains_key(k) ==> final(self).paths().contains_key(k)
                    && final(self).paths()[k] == old(self).paths()[k],
    {
        self.handles.remove(&h);
        assert(self.paths() =~= old(self).paths().remove(h));
    }
}

/// The locks of paths, by number: two paths have the same lock only if they are
/// the same.
pub struct PathLockManager {
    locks: PathTable<u64>,
    next_lock: u64,
}

impl PathLockManager {
    /// The lock of each path.
    pub closed spec fn locks(&self) -> Map<Seq<char>, u64> {
        self.locks@
    }

    /// The next lock to be given out.
    pub closed spec fn next(&self) -> nat {
        self.next_lock as nat
    }

    /// No two paths have the same lock, and no lock was given out that is yet to
    /// come.
    pub closed spec fn wf(&self) -> bool {
        &&& self.locks.wf()
        &&& forall|p: Seq<char>| #[trigger] self.locks@.contains_key(p) ==> self.locks@[p]
            < self.next_lock
        &&& forall|p: Seq<char>, q: Seq<char>|
            self.locks@.contains_key(p) && self.locks@.contains_key(q) && p != q
                ==> #[trigger] self.locks@[p] != #[trigger] self.locks@[q]
    }

    /// No path has a lock.
    pub fn new() -> (m: Self)
        ensures
            m.wf(),
            m.locks() == Map::<Seq<char>, u64>::empty(),
            m.next() == 0,
    {
        PathLockManager { locks: PathTable::new(), next_lock: 0 }
    }

    /// The lock of `path`: the one it has, or a new one.
    pub fn get_lock(&mut self, path: &str) -> (lock: u64)
        requires
            old(self).wf(),
            old(self).next() < u64::MAX,
        ensures
            final(self).wf(),
            if old(self).locks().contains_key(path@) {
                lock == old(self).locks()[path@] && final(self).locks() == old(self).locks()
                    && final(self).next() == old(self).next()
            } else {
                lock == old(self).next() && final(self).locks() == old(self).locks().insert(
                    path@,
                    lock,
                ) && final(self).next() == old(self).next() + 1
            },
            final(self).locks().contains_key(path@) && final(self).locks()[path@] == lock,
            forall|p: Seq<char>| #[trigger]
                old(self).locks().contains_key(p) ==> final(self).locks().contains_key(p)
                    && final(self).locks()[p] == old(self).locks()[p],
    {
        if let Some(lock) = self.locks.get(path) {
            return *lock;
        }
        let lock: u64 = self.next_lock;
        self.next_lock = lock + 1;
        self.locks.insert(owned(path), lock);
        lock
    }

    /// Different paths have different locks.
    pub proof fn law_locks_differ(&self, p: Seq<char>, q: Seq<char>)
        requires
            self.wf(),
            self.locks().contains_key(p),
            self.locks().contains_key(q),
            p != q,
        ensures
            self.locks()[p] != self.locks()[q],
    {
    }
}

/// The blocks of a file hold it, and there is none too many.
pub proof fn law_blocks(size: nat, other: nat)
    ensures
        size <= 512 * blocks_for(size) < size + 512,
        size == 0 <==> blocks_for(size) == 0,
        size <= other ==> blocks_for(size) <= blocks_for(other),
{
}

/// The attributes of an entry are those that the server told: its size, its
/// times, and whether it is a directory, with the number and the owner that it is
/// given here.
pub proof fn law_attr_for(ino: u64, entry: FileEntry, uid: u32, gid: u32)
    ensures
        attr_for(ino, entry, uid, gid).ino == ino,
        attr_for(ino, entry, uid, gid).size == entry.size,
        attr_for(ino, entry, uid, gid).mtime == entry.mtime,
        attr_for(ino, entry, uid, gid).ctime == entry.ctime,
        attr_for(ino, entry, uid, gid).uid == uid,
        attr_for(ino, entry, uid, gid).gid == gid,
        attr_for(ino, entry, uid, gid).kind == FileType::Directory <==> entry.is_dir,
        attr_for(ino, entry, uid, gid).nlink == (if entry.is_dir {
            2int
        } else {
            1
        }),
        entry.size <= 512 * attr_for(ino, entry, uid, gid).blocks < entry.size + 512,
{
}

/// The permission bits that are shown are those of the mode for owner, group and
/// others, where it has any; the owner of a directory can always use it.
pub proof fn law_shown_perm(mode: u32, is_dir: bool)
    ensures
        mode & 0o777 != 0 && !is_dir ==> shown_perm(mode, is_dir) == mode & 0o777,
        mode & 0o777 != 0 ==> shown_perm(mode, is_dir) & 0o77 == mode & 0o77,
        is_dir ==> shown_perm(mode, is_dir) & 0o700 == 0o700,
        shown_perm(mode, is_dir) != 0,
{
    lemma_perm_bits(mode);
    assert((mode & 0o777) as u16 & 0o77 == mode & 0o77) by (bit_vector);
}

/// An entry that was learnt is found under its path with its attributes; a path
/// that had a number has it still, and the other nodes are as they were.
pub proof fn law_learnt(
    before: TableView,
    after: TableView,
    path: Seq<char>,
    entry: FileEntry,
    now: i64,
    other: Seq<char>,
)
    requires
        paired(before),
        before.next <= u64::MAX,
        learnt(before, after, path, entry, now),
        other != path,
    ensures
        after.numbers.contains_key(path),
        before.numbers.contains_key(path) ==> after.numbers[path] == before.numbers[path],
        !before.numbers.contains_key(path) ==> !before.nodes.contains_key(after.numbers[path]),
        after.nodes[after.numbers[path]].path@ == path,
        after.nodes[after.numbers[path]].attr.ino == after.numbers[path],
        after.nodes[after.numbers[path]].attr.size == entry.size,
        after.nodes[after.numbers[path]].attr.kind == FileType::Directory <==> entry.is_dir,
        after.nodes[after.numbers[path]].cached_at == now,
        before.numbers.contains_key(other) <==> after.numbers.contains_key(other),
        before.numbers.contains_key(other) ==> after.numbers[other] == before.numbers[other]
            && after.nodes[before.numbers[other]] == before.nodes[before.numbers[other]],
{
    if before.numbers.contains_key(other) {
        assert(before.nodes.contains_key(before.numbers[other]));
    }
}

/// What was dropped is found neither by its path nor by its number, and all else
/// is as it was.
pub proof fn law_dropped(v: TableView, path: Seq<char>, other: Seq<char>)
    requires
        paired(v),
        other != path,
    ensures
        !dropped(v, path).numbers.contains_key(path),
        v.numbers.contains_key(path) ==> !dropped(v, path).nodes.contains_key(v.numbers[path]),
        dropped(v, path).numbers.contains_key(other) <==> v.numbers.contains_key(other),
        v.numbers.contains_key(other) ==> dropped(v, path).numbers[other] == v.numbers[other]
            && dropped(v, path).nodes.contains_key(v.numbers[other]) && dropped(
            v,
            path,
        ).nodes[v.numbers[other]] == v.nodes[v.numbers[other]],
        paired(dropped(v, path)),
{
    let after = dropped(v, path);
    if v.numbers.contains_key(path) {
        assert forall|i: u64| #[trigger] after.nodes.contains_key(i) implies i < after.next
            && after.numbers.contains_key(after.nodes[i].path@)
            && after.numbers[after.nodes[i].path@] == i by {
            assert(v.nodes.contains_key(i));
        }
        assert forall|p: Seq<char>| #[trigger]
            after.numbers.contains_key(p) implies after.nodes.contains_key(after.numbers[p])
            && after.nodes[after.numbers[p]].path@ == p by {
            assert(v.numbers.contains_key(p));
            assert(v.nodes[v.numbers[p]].path@ == p);
            assert(v.nodes[v.numbers[path]].path@ == path);
        }
        if v.numbers.contains_key(other) {
            assert(v.nodes[v.numbers[other]].path@ == other);
            assert(v.nodes[v.numbers[path]].path@ == path);
        }
    }
}

/// What was moved keeps its number and its attributes under the new path, and
/// nothing is found under the old one.
pub proof fn law_relocated(
    before: TableView,
    after: TableView,
    old_path: Seq<char>,
    new_path: Seq<char>,
    other: Seq<char>,
)
    requires
        paired(before),
        relocated(before, after, old_path, new_path),
        before.numbers.contains_key(old_path),
        old_path != new_path,
        other != old_path,
        other != new_path,
    ensures
        after.numbers.contains_key(new_path),
        after.numbers[new_path] == before.numbers[old_path],
        !after.numbers.contains_key(old_path),
        after.nodes[before.numbers[old_path]].path@ == new_path,
        after.nodes[before.numbers[old_path]].attr == before.nodes[before.numbers[old_path]].attr,
        before.numbers.contains_key(other) ==> after.numbers.contains_key(other)
            && after.numbers[other] == before.numbers[other],
{
    law_dropped(before, new_path, old_path);
    law_dropped(before, new_path, other);
    law_dropped(dropped(before, new_path), old_path, other);
    law_dropped(dropped(before, new_path), old_path, new_path);
}

/// The path of a name in a directory ends in a slash and the name, and different
/// names have different paths.
pub proof fn law_path_in(parent: Seq<char>, a: Seq<char>, b: Seq<char>)
    ensures
        path_in(parent, a).skip(path_in(parent, a).len() - a.len()) == a,
        path_in(parent, a)[path_in(parent, a).len() - a.len() - 1] == '/',
        path_in(parent, a) == path_in(parent, b) <==> a == b,
        parent != "/"@ ==> path_in(parent, a).take(parent.len() as int) == parent,
        path_in(parent, a).len() >= a.len() + 1,
{
    reveal_strlit("/");
    let head = if parent == "/"@ {
        "/"@
    } else {
        parent + "/"@
    };
    assert(path_in(parent, a) == head + a);
    assert(path_in(parent, b) == head + b);
    assert((head + a).skip(head.len() as int) =~= a);
    assert((head + b).skip(head.len() as int) =~= b);
    if parent != "/"@ {
        assert((head + a).take(parent.len() as int) =~= parent);
    }
}

} // verus!
