//! Numbers for paths: every path that was seen has one, and keeps it when it is
//! renamed.

use std::collections::HashMap;

use vstd::hash_map::StringHashMap;
use vstd::prelude::*;
use vstd::string::*;

use crate::text::{owned, trim_start, trim_start_char};

verus! {

broadcast use vstd::std_specs::hash::group_hash_axioms;

/// The number of the root.
pub const ROOT_INODE: u64 = 1;

/// The model: which number a path has, which path a number stands for, in which
/// directory a number was seen, and the next number to be given out.
#[verifier::ext_equal]
pub struct InodesView {
    pub numbers: Map<Seq<char>, u64>,
    pub paths: Map<u64, Seq<char>>,
    pub parents: Map<u64, u64>,
    pub next: nat,
}

/// The numbers of paths.
pub struct Inodes {
    path_to_inode: StringHashMap<u64>,
    inode_to_path: HashMap<u64, String>,
    parent_map: HashMap<u64, u64>,
    next_inode: u64,
}

impl View for Inodes {
    type V = InodesView;

    closed spec fn view(&self) -> InodesView {
        InodesView {
            numbers: self.path_to_inode@,
            paths: self.inode_to_path@.map_values(|s: String| s@),
            parents: self.parent_map@,
            next: self.next_inode as nat,
        }
    }
}

/// A number stands for the path that has it, and no number was given out that
/// is yet to come.
pub open spec fn consistent(v: InodesView) -> bool {
    &&& forall|p: Seq<char>| #[trigger]
        v.numbers.contains_key(p) ==> v.paths.contains_key(v.numbers[p])
            && v.paths[v.numbers[p]] == p
    &&& forall|i: u64| #[trigger] v.paths.contains_key(i) ==> i < v.next
}

/// The root has its number.
pub open spec fn root_numbered(v: InodesView) -> bool {
    v.numbers.contains_key(Seq::empty()) && v.numbers[Seq::empty()] == ROOT_INODE
}

/// The model in which only the root has a number; it lies in itself.
pub open spec fn root_only() -> InodesView {
    InodesView {
        numbers: Map::<Seq<char>, u64>::empty().insert(Seq::empty(), ROOT_INODE),
        paths: Map::<u64, Seq<char>>::empty().insert(ROOT_INODE, Seq::empty()),
        parents: Map::<u64, u64>::empty().insert(ROOT_INODE, ROOT_INODE),
        next: 2,
    }
}

/// The model once `path` has a number.
pub open spec fn numbered(v: InodesView, path: Seq<char>) -> InodesView {
    if v.numbers.contains_key(path) {
        v
    } else {
        InodesView {
            numbers: v.numbers.insert(path, v.next as u64),
            paths: v.paths.insert(v.next as u64, path),
            next: v.next + 1,
            ..v
        }
    }
}

/// The model once what had the path `old` has the path `new`.
pub open spec fn moved(v: InodesView, old: Seq<char>, new: Seq<char>) -> InodesView {
    if v.numbers.contains_key(old) {
        InodesView {
            numbers: v.numbers.remove(old).insert(new, v.numbers[old]),
            paths: v.paths.insert(v.numbers[old], new),
            ..v
        }
    } else {
        v
    }
}

/// The path that a number stands for: the root's is the empty one, whatever
/// else.
pub open spec fn path_of(v: InodesView, ino: u64) -> Option<Seq<char>> {
    if ino == ROOT_INODE {
        Some(Seq::empty())
    } else if v.paths.contains_key(ino) {
        Some(v.paths[ino])
    } else {
        None
    }
}

/// The directory that a number was seen in, the root where it was not seen.
pub open spec fn seen_in(v: InodesView, ino: u64) -> u64 {
    if v.parents.contains_key(ino) {
        v.parents[ino]
    } else {
        ROOT_INODE
    }
}

impl Inodes {
    /// Only the root has a number.
    pub fn new() -> (t: Self)
        ensures
            consistent(t@),
            root_numbered(t@),
            t@ == root_only(),
    {
        let mut path_to_inode: StringHashMap<u64> = StringHashMap::new();
        path_to_inode.insert(String::new(), ROOT_INODE);
        let mut inode_to_path: HashMap<u64, String> = HashMap::new();
        inode_to_path.insert(ROOT_INODE, String::new());
        let mut parent_map: HashMap<u64, u64> = HashMap::new();
        parent_map.insert(ROOT_INODE, ROOT_INODE);
        let t = Inodes { path_to_inode, inode_to_path, parent_map, next_inode: 2 };
        assert(t@.numbers =~= Map::<Seq<char>, u64>::empty().insert(Seq::empty(), ROOT_INODE));
        assert(t@.paths =~= Map::<u64, Seq<char>>::empty().insert(ROOT_INODE, Seq::empty()));
        assert(t@.parents =~= Map::<u64, u64>::empty().insert(ROOT_INODE, ROOT_INODE));
        t
    }

    /// The number of `path`, without its leading slashes: the one it has, or the
    /// next one.
    pub fn get_allocated_inode(&mut self, path: &str) -> (ino: u64)
        requires
            consistent(old(self)@),
            old(self)@.next < u64::MAX,
        ensures
            consistent(final(self)@),
            root_numbered(old(self)@) ==> root_numbered(final(self)@),
            final(self)@ == numbered(old(self)@, trim_start(path@, '/')),
            final(self)@.numbers.contains_key(trim_start(path@, '/')),
            ino == final(self)@.numbers[trim_start(path@, '/')],
            old(self)@.numbers.contains_key(trim_start(path@, '/')) ==> ino == old(self)@.numbers[trim_start(path@, '/')] && final(self)@ == old(self)@,
            !old(self)@.numbers.contains_key(trim_start(path@, '/')) ==> ino == old(self)@.next && final(self)@.next == old(self)@.next + 1,
            final(self)@.paths.contains_key(ino) && final(self)@.paths[ino] == trim_start(path@, '/'),
            forall|p: Seq<char>| #[trigger]
                old(self)@.numbers.contains_key(p) ==> final(self)@.numbers.contains_key(p)
                    && final(self)@.numbers[p] == old(self)@.numbers[p],
            final(self)@.parents == old(self)@.parents,
    {
        let clean = trim_start_char(path, '/');
        if let Some(ino) = self.path_to_inode.get(clean) {
            return *ino;
        }
        let ino: u64 = self.next_inode;
        self.next_inode = ino + 1;
        self.path_to_inode.insert(owned(clean), ino);
        self.inode_to_path.insert(ino, owned(clean));
        assert(self@ =~= numbered(old(self)@, clean@));
        ino
    }

    /// The path that a number stands for.
    pub fn get_path_by_ino(&self, ino: u64) -> (r: Option<String>)
        ensures
            match r {
                Some(p) => path_of(self@, ino) == Some(p@),
                None => path_of(self@, ino) is None,
            },
            ino == 1 ==> (r matches Some(p) && p@.len() == 0),
            ino != 1 ==> (r is Some <==> self@.paths.contains_key(ino)),
            ino != 1 ==> (r matches Some(p) ==> p@ == self@.paths[ino]),
    {
        if ino == ROOT_INODE {
            return Some(String::new());
        }
        match self.inode_to_path.get(&ino) {
            Some(p) => Some(p.clone()),
            None => None,
        }
    }

    /// Notes that what had the path `old_clean` has the path `new_clean`.
    pub fn rename(&mut self, old_clean: &str, new_clean: &str)
        requires
            consistent(old(self)@),
        ensures
            consistent(final(self)@),
            root_numbered(old(self)@) && old_clean@.len() > 0 && new_clean@.len() > 0
                ==> root_numbered(final(self)@),
            final(self)@ == moved(old(self)@, old_clean@, new_clean@),
            old(self)@.numbers.contains_key(old_clean@) ==> final(self)@.numbers.contains_key(new_clean@)
                && final(self)@.numbers[new_clean@] == old(self)@.numbers[old_clean@]
                && final(self)@.paths[old(self)@.numbers[old_clean@]] == new_clean@,
            old(self)@.numbers.contains_key(old_clean@) && old_clean@ != new_clean@ ==> !final(self)@.numbers.contains_key(old_clean@),
            !old(self)@.numbers.contains_key(old_clean@) ==> final(self)@ == old(self)@,
            final(self)@.next == old(self)@.next,
            final(self)@.parents == old(self)@.parents,
    {
        let found: Option<u64> = match self.path_to_inode.get(old_clean) {
            Some(ino) => Some(*ino),
            None => None,
        };
        if let Some(ino) = found {
            self.path_to_inode.remove(old_clean);
            self.path_to_inode.insert(owned(new_clean), ino);
            self.inode_to_path.insert(ino, owned(new_clean));
        }
        assert(self@ =~= moved(old(self)@, old_clean@, new_clean@));
    }

    /// Notes that `ino` was seen in the directory `parent`.
    pub fn set_parent(&mut self, ino: u64, parent: u64)
        requires
            consistent(old(self)@),
        ensures
            consistent(final(self)@),
            root_numbered(old(self)@) ==> root_numbered(final(self)@),
            final(self)@ == (InodesView {
                parents: old(self)@.parents.insert(ino, parent),
                ..old(self)@
            }),
            final(self)@.parents.contains_key(ino) && final(self)@.parents[ino] == parent,
            final(self)@.numbers == old(self)@.numbers,
            final(self)@.paths == old(self)@.paths,
    {
        self.parent_map.insert(ino, parent);
        assert(self@.parents =~= old(self)@.parents.insert(ino, parent));
    }

    /// The directory that `ino` was seen in, the root where it was not seen.
    pub fn parent_of(&self, ino: u64) -> (r: u64)
        ensures
            r == seen_in(self@, ino),
            self@.parents.contains_key(ino) ==> r == self@.parents[ino],
            !self@.parents.contains_key(ino) ==> r == 1,
    {
        match self.parent_map.get(&ino) {
            Some(p) => *p,
            None => ROOT_INODE,
        }
    }
}

/// The root's number stays its own, whatever paths get numbers or are renamed, as
/// long as none of them is renamed from or to the root itself.
pub proof fn law_root_stays(
    v: InodesView,
    path: Seq<char>,
    old_path: Seq<char>,
    new_path: Seq<char>,
)
    requires
        root_numbered(v),
        old_path.len() > 0,
        new_path.len() > 0,
    ensures
        root_numbered(numbered(v, path)),
        root_numbered(moved(v, old_path, new_path)),
{
}

/// Only the root has the root's number.
pub proof fn law_root_alone(v: InodesView, path: Seq<char>)
    requires
        consistent(v),
        root_numbered(v),
        v.numbers.contains_key(path),
    ensures
        v.numbers[path] == ROOT_INODE <==> path.len() == 0,
        path_of(v, v.numbers[path]) == Some(path),
{
    assert(path.len() == 0 ==> path =~= Seq::empty());
    assert(v.paths[ROOT_INODE] == Seq::<char>::empty());
}

/// A path that has a number keeps it, and asking again changes nothing.
pub proof fn law_number_is_kept(v: InodesView, path: Seq<char>)
    requires
        consistent(v),
    ensures
        numbered(numbered(v, path), path) == numbered(v, path),
        v.numbers.contains_key(path) ==> numbered(v, path).numbers[path] == v.numbers[path],
{
}

/// Different paths have different numbers.
pub proof fn law_numbers_differ(v: InodesView, p: Seq<char>, q: Seq<char>)
    requires
        consistent(v),
        v.numbers.contains_key(p),
        v.numbers.contains_key(q),
        p != q,
    ensures
        v.numbers[p] != v.numbers[q],
{
}

/// Giving a path a number leaves the numbers of other paths, and the paths of
/// other numbers, as they were.
pub proof fn law_numbering_elsewhere(v: InodesView, path: Seq<char>, other: Seq<char>, ino: u64)
    requires
        consistent(v),
        v.next <= u64::MAX,
        other != path,
        v.paths.contains_key(ino),
    ensures
        numbered(v, path).numbers.contains_key(other) == v.numbers.contains_key(other),
        v.numbers.contains_key(other) ==> numbered(v, path).numbers[other] == v.numbers[other],
        path_of(numbered(v, path), ino) == path_of(v, ino),
{
}

/// What is renamed keeps its number: the new path has the number that the old
/// one had, the number stands for the new path, and the old path has none. A
/// number that the old path gets later was never given before, and giving it
/// leaves the renamed one as it is.
pub proof fn law_rename_keeps_number(v: InodesView, old_path: Seq<char>, new_path: Seq<char>)
    requires
        consistent(v),
        v.next <= u64::MAX,
        root_numbered(v),
        v.numbers.contains_key(old_path),
        old_path.len() > 0,
        old_path != new_path,
    ensures
        ({
            let ino = v.numbers[old_path];
            let after = moved(v, old_path, new_path);
            let again = numbered(after, old_path);
            &&& consistent(after)
            &&& after.numbers.contains_key(new_path)
            &&& after.numbers[new_path] == ino
            &&& numbered(after, new_path) == after
            &&& path_of(after, ino) == Some(new_path)
            &&& !after.numbers.contains_key(old_path)
            &&& again.numbers.contains_key(old_path)
            &&& !v.paths.contains_key(again.numbers[old_path])
            &&& forall|p: Seq<char>| #[trigger]
                v.numbers.contains_key(p) ==> v.numbers[p] != again.numbers[old_path]
            &&& again.numbers[new_path] == ino
            &&& path_of(again, ino) == Some(new_path)
        }),
{
    law_root_alone(v, old_path);
}

/// Renaming leaves the numbers of the other paths, and the paths of the other
/// numbers, as they were.
pub proof fn law_rename_elsewhere(
    v: InodesView,
    old_path: Seq<char>,
    new_path: Seq<char>,
    other: Seq<char>,
    ino: u64,
)
    requires
        consistent(v),
        other != old_path,
        other != new_path,
        v.numbers.contains_key(old_path) ==> ino != v.numbers[old_path],
    ensures
        moved(v, old_path, new_path).numbers.contains_key(other) == v.numbers.contains_key(other),
        v.numbers.contains_key(other) ==> moved(v, old_path, new_path).numbers[other]
            == v.numbers[other],
        path_of(moved(v, old_path, new_path), ino) == path_of(v, ino),
{
}

/// A path that is new gets the number that comes next, and the numbers after it
/// are those yet to come; only the number that was given stands for something new.
pub proof fn law_new_number(v: InodesView, path: Seq<char>, ino: u64)
    requires
        consistent(v),
        v.next < u64::MAX,
        !v.numbers.contains_key(path),
    ensures
        numbered(v, path).numbers[path] == v.next,
        numbered(v, path).next == v.next + 1,
        numbered(v, path).paths.contains_key(ino) <==> v.paths.contains_key(ino) || ino == v.next,
        ino != 1 && ino == v.next ==> path_of(numbered(v, path), ino) == Some(path),
        numbered(v, path).parents == v.parents,
{
}

/// Number 1 is the root's, and numbers that stand for nothing have no path. What
/// was seen nowhere counts as seen in the root.
pub proof fn law_path_of(v: InodesView, ino: u64)
    ensures
        path_of(v, 1) == Some(Seq::<char>::empty()),
        ino != 1 && v.paths.contains_key(ino) ==> path_of(v, ino) == Some(v.paths[ino]),
        ino != 1 && !v.paths.contains_key(ino) ==> path_of(v, ino) is None,
        v.parents.contains_key(ino) ==> seen_in(v, ino) == v.parents[ino],
        !v.parents.contains_key(ino) ==> seen_in(v, ino) == 1,
{
}

/// At first there is the root alone, with number 1, in itself, and 2 comes next.
pub proof fn law_root_only(path: Seq<char>, ino: u64)
    ensures
        root_only().numbers.contains_key(path) <==> path.len() == 0,
        root_only().numbers[Seq::empty()] == 1,
        root_only().paths.contains_key(ino) <==> ino == 1,
        root_only().parents.contains_key(ino) <==> ino == 1,
        seen_in(root_only(), 1) == 1,
        root_only().next == 2,
{
    assert(path.len() == 0 ==> path =~= Seq::empty());
}

} // verus!
