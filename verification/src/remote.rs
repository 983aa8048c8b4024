//! The client that keeps numbers for paths: which requests its operations make,
//! what the answers mean, and what has to be remembered and forgotten.

use vstd::hash_set::StringHashSet;
use vstd::prelude::*;
use vstd::string::*;

use crate::bytes::slice;
use crate::cache::chunk_start;
use crate::errno::Errno;
use crate::http::{
    is_success, plain_request, success, Body, BodyView, Method, NetworkFault, Request,
};
use crate::inodes::{
    consistent, law_root_alone, moved, numbered, path_of, root_numbered, root_only,
    Inodes, InodesView, ROOT_INODE,
};
use crate::numeral::{decimal, is_digit, lemma_decimal_digits, render_decimal};
use crate::text::{owned, trim_start, trim_start_char};

verus! {

/// What is told of a file.
#[derive(Debug)]
pub struct FileInfo {
    pub name: String,
    pub path: String,
    pub file_type: String,
    pub size: u64,
    pub timestamp: u64,
    pub permissions: String,
}

impl Clone for FileInfo {
    fn clone(&self) -> (r: Self)
        ensures
            r == *self,
    {
        FileInfo {
            name: self.name.clone(),
            path: self.path.clone(),
            file_type: self.file_type.clone(),
            size: self.size,
            timestamp: self.timestamp,
            permissions: self.permissions.clone(),
        }
    }
}

impl FileInfo {
    /// What is told of the root.
    pub fn root() -> (r: Self)
        ensures
            r.name@ == ""@,
            r.path@ == ""@,
            r.file_type@ == "dir"@,
            r.size == 0,
            r.timestamp == 0,
            r.permissions@ == "755"@,
    {
        FileInfo {
            name: owned(""),
            path: owned(""),
            file_type: owned("dir"),
            size: 0,
            timestamp: 0,
            permissions: owned("755"),
        }
    }
}

/// What became of a request. A body that could not be read is a fault of its
/// own.
#[derive(Debug)]
pub enum Outcome<T> {
    /// No answer came.
    Failed(NetworkFault),
    /// An answer came.
    Answered { status: u16, body: Result<T, NetworkFault> },
}

/// The size of the chunks in which files are read.
pub const READ_CHUNK_SIZE: u64 = 8_388_608;

/// How many files' metadata are remembered, and for how many seconds.
pub const METADATA_CAPACITY: u64 = 10_000;

pub const METADATA_SECONDS: u64 = 5;

/// How many chunks are remembered, and for how many seconds without use.
pub const READ_CAPACITY: u64 = 512;

pub const READ_IDLE_SECONDS: u64 = 10;

/// The address that the text `text` denotes, as `Url` writes it.
pub uninterp spec fn parsed_url(text: Seq<char>) -> Option<Seq<char>>;

/// `reqwest::Url::parse`: whether the text denotes an address, and how that is
/// written, depends on the text alone.
#[verifier::external_body]
fn parse_url(text: &str) -> (r: Option<String>)
    ensures
        match r {
            Some(u) => parsed_url(text@) == Some(u@),
            None => parsed_url(text@) is None,
        },
{
    match reqwest::Url::parse(text) {
        Ok(url) => Some(url.to_string()),
        Err(_) => None,
    }
}

/// The address that the reference `rel` denotes from the address `base`, as
/// `Url` writes it.
pub uninterp spec fn joined_url(base: Seq<char>, rel: Seq<char>) -> Option<Seq<char>>;

/// `reqwest::Url::join` on the address that `base` denotes: what comes of it
/// depends on the two texts alone. There is nothing where `base` denotes no
/// address.
#[verifier::external_body]
pub(crate) fn join_url(base: &str, rel: &str) -> (r: Option<String>)
    ensures
        match r {
            Some(u) => joined_url(base@, rel@) == Some(u@),
            None => joined_url(base@, rel@) is None,
        },
{
    match reqwest::Url::parse(base) {
        Ok(url) => match url.join(rel) {
            Ok(joined) => Some(joined.to_string()),
            Err(_) => None,
        },
        Err(_) => None,
    }
}

/// The condition that a fault of the network stands for.
pub open spec fn net_error(fault: NetworkFault) -> Errno {
    match fault {
        NetworkFault::Timeout => Errno::TimedOut,
        NetworkFault::Connect => Errno::ConnRefused,
        NetworkFault::Other(_) => Errno::Io,
    }
}

/// The condition that a fault of the network stands for.
pub fn map_net_error(fault: &NetworkFault) -> (e: Errno)
    ensures
        e == net_error(*fault),
        fault is Timeout <==> e == Errno::TimedOut,
        fault is Connect <==> e == Errno::ConnRefused,
        fault is Other <==> e == Errno::Io,
{
    match fault {
        NetworkFault::Timeout => Errno::TimedOut,
        NetworkFault::Connect => Errno::ConnRefused,
        NetworkFault::Other(_) => Errno::Io,
    }
}

/// A request to an address, if there is one.
pub open spec fn asks(
    r: Result<Request, Errno>,
    url: Option<Seq<char>>,
    method: Method,
    body: BodyView,
) -> bool {
    match url {
        Some(u) => r matches Ok(q) && q@ == plain_request(method, u, body),
        None => r == Err::<Request, Errno>(Errno::Io),
    }
}

/// A request to an address. Without one there is an input/output error.
pub fn request_to(url: Option<String>, method: Method, body: Body) -> (r: Result<Request, Errno>)
    ensures
        asks(
            r,
            match url {
                Some(u) => Some(u@),
                None => None,
            },
            method,
            body@,
        ),
        url is Some <==> r is Ok,
        url matches Some(u) ==> (r matches Ok(q) ==> q.url@ == u@ && q.method == method && q.body == body
            && q.content_range is None && q.content_type is None),
{
    match url {
        Some(u) => Ok(Request { method, url: u, content_range: None, content_type: None, body }),
        None => Err(Errno::Io),
    }
}

/// `prefix`, with the path behind it where there is one.
pub open spec fn endpoint(prefix: Seq<char>, path: Seq<char>) -> Seq<char> {
    if path.len() == 0 {
        prefix
    } else {
        prefix + "/"@ + path
    }
}

/// `prefix`, with the path behind it where there is one.
pub fn endpoint_for_path(prefix: &str, path_clean: &str) -> (r: String)
    ensures
        r@ == endpoint(prefix@, path_clean@),
        r@.len() == prefix@.len() + (if path_clean@.len() == 0 {
            0
        } else {
            1 + path_clean@.len()
        }),
{
    let mut r = owned(prefix);
    proof {
        reveal_strlit("/");
    }
    if path_clean.unicode_len() != 0 {
        r.append("/");
        r.append(path_clean);
    }
    r
}

/// Where an operation stands: it ended, or this has to be sent.
#[derive(Debug)]
pub enum Remote<T> {
    Done(Result<T, Errno>),
    Send(Request),
}

/// Where asking for metadata stands.
#[derive(Debug)]
pub enum StatStep {
    /// The path has this number. What is remembered under this key has to be
    /// looked up.
    Recall(u64, String),
    /// This has to be sent.
    Send(Request),
    /// It failed.
    Fail(Errno),
    /// This is known already.
    Known(u64, FileInfo),
    /// This was learnt, and has to be remembered under this key.
    Learnt(u64, FileInfo, String),
}

/// The step sends a request to an address, or fails for want of one.
pub open spec fn stat_asks(step: StatStep, url: Option<Seq<char>>) -> bool {
    match url {
        Some(u) => step matches StatStep::Send(q) && q@ == plain_request(
            Method::Get,
            u,
            BodyView::Empty,
        ),
        None => step matches StatStep::Fail(e) && e == Errno::Io,
    }
}

/// What an answer about the metadata of `path` means.
pub open spec fn stat_told(
    step: StatStep,
    answer: Outcome<FileInfo>,
    ino: u64,
    path: Seq<char>,
) -> bool {
    match answer {
        Outcome::Failed(fault) => step matches StatStep::Fail(e) && e == net_error(fault),
        Outcome::Answered { status, body } => if status == 404 {
            step matches StatStep::Fail(e) && e == Errno::NoEnt
        } else {
            match body {
                Ok(info) => step matches StatStep::Learnt(i, f, key) && i == ino && f == info
                    && key@ == path,
                Err(fault) => step matches StatStep::Fail(e) && e == net_error(fault),
            }
        },
    }
}

/// The step sends a request to an address, or fails for want of one.
pub open spec fn sends<T>(
    step: Remote<T>,
    url: Option<Seq<char>>,
    method: Method,
    body: BodyView,
) -> bool {
    match url {
        Some(u) => step matches Remote::Send(q) && q@ == plain_request(method, u, body),
        None => step matches Remote::Done(Err(e)) && e == Errno::Io,
    }
}

/// The step fails.
pub open spec fn breaks<T>(step: Remote<T>, errno: Errno) -> bool {
    step matches Remote::Done(Err(e)) && e == errno
}

/// What an answer of which only the success counts means.
pub open spec fn confirmed(step: Remote<()>, answer: Outcome<()>) -> bool {
    match answer {
        Outcome::Failed(fault) => breaks(step, net_error(fault)),
        Outcome::Answered { status, .. } => if success(status) {
            step matches Remote::Done(Ok(_))
        } else {
            breaks(step, Errno::Io)
        },
    }
}

/// What has to change in what is remembered once the server changed something:
/// all chunks have to be forgotten, and so have the metadata under one key;
/// others may have to be remembered under another.
#[derive(Debug)]
pub struct Upkeep {
    pub forget: String,
    pub remember: Option<(String, u64, FileInfo)>,
}

/// What is remembered: the metadata of files by their paths, and chunks by their
/// keys.
#[verifier::ext_equal]
pub struct Memory {
    pub metadata: Map<Seq<char>, (u64, FileInfo)>,
    pub chunks: Map<Seq<char>, Seq<u8>>,
}

/// What is remembered after an upkeep.
pub open spec fn kept_up(m: Memory, u: Upkeep) -> Memory {
    let left = m.metadata.remove(u.forget@);
    Memory {
        metadata: match u.remember {
            Some(r) => left.insert(r.0@, (r.1, r.2)),
            None => left,
        },
        chunks: Map::empty(),
    }
}

/// What an answer of which only the success counts means for what is remembered
/// of `path`: it is forgotten when that went well.
pub open spec fn outdated(step: Remote<Upkeep>, answer: Outcome<()>, path: Seq<char>) -> bool {
    match answer {
        Outcome::Failed(fault) => breaks(step, net_error(fault)),
        Outcome::Answered { status, .. } => if success(status) {
            step matches Remote::Done(Ok(u)) && u.forget@ == path && u.remember is None
        } else {
            breaks(step, Errno::Io)
        },
    }
}

/// What an answer of which only the success counts means.
fn confirm(answer: &Outcome<()>) -> (step: Remote<()>)
    ensures
        confirmed(step, *answer),
        *answer matches Outcome::Answered { status, .. } ==> (200 <= status && status <= 299 <==> step
            matches Remote::Done(Ok(_))),
        *answer matches Outcome::Answered { status, .. } ==> (!(200 <= status && status <= 299) ==> step
            == Remote::<()>::Done(Err(Errno::Io))),
        answer is Failed ==> step matches Remote::Done(Err(_)),
        !(step is Send),
{
    match answer {
        Outcome::Failed(fault) => Remote::Done(Err(map_net_error(fault))),
        Outcome::Answered { status, .. } => if is_success(*status) {
            Remote::Done(Ok(()))
        } else {
            Remote::Done(Err(Errno::Io))
        },
    }
}

/// What an answer of which only the success counts means for what is remembered
/// of `path`.
fn outdate(answer: &Outcome<()>, path: &str) -> (step: Remote<Upkeep>)
    ensures
        outdated(step, *answer, path@),
        *answer matches Outcome::Answered { status, .. } ==> (200 <= status && status <= 299 <==> step
            matches Remote::Done(Ok(_))),
        *answer matches Outcome::Answered { status, .. } ==> (!(200 <= status && status <= 299) ==> step
            == Remote::<Upkeep>::Done(Err(Errno::Io))),
        answer is Failed ==> step matches Remote::Done(Err(_)),
        !(step is Send),
        step matches Remote::Done(Ok(u)) ==> u.forget@ == path@ && u.remember is None,
{
    match confirm(answer) {
        Remote::Done(Ok(_)) => Remote::Done(Ok(Upkeep { forget: owned(path), remember: None })),
        Remote::Done(Err(e)) => Remote::Done(Err(e)),
        Remote::Send(q) => Remote::Send(q),
    }
}

/// What an answer that carries bytes means.
pub open spec fn carried(step: Remote<Vec<u8>>, answer: Outcome<Vec<u8>>) -> bool {
    match answer {
        Outcome::Failed(fault) => breaks(step, net_error(fault)),
        Outcome::Answered { status, body } => if !success(status) {
            breaks(step, Errno::Io)
        } else {
            match body {
                Ok(bytes) => step matches Remote::Done(Ok(b)) && b == bytes,
                Err(fault) => breaks(step, net_error(fault)),
            }
        },
    }
}

/// The reference of a part of a file.
pub open spec fn part_reference(path: Seq<char>, offset: nat, size: nat) -> Seq<char> {
    "files/"@ + path + "?offset="@ + decimal(offset) + "&size="@ + decimal(size)
}

/// The key under which a chunk of a file is remembered.
pub open spec fn key_of_chunk(path: Seq<char>, start: nat) -> Seq<char> {
    path + ":"@ + decimal(start)
}

/// The key under which a chunk of a file is remembered.
pub fn chunk_key(path: &str, start: u64) -> (r: String)
    ensures
        r@ == key_of_chunk(path@, start as nat),
        r@.len() == path@.len() + 1 + decimal(start as nat).len(),
{
    let mut r = owned(path);
    proof {
        reveal_strlit(":");
    }
    r.append(":");
    r.append(render_decimal(start).as_str());
    r
}

/// What has to be done for a chunk that is wanted.
#[derive(Debug, Clone, Copy, PartialEq, Eq, Structural)]
pub enum ChunkStep {
    /// It is remembered: use that.
    Use,
    /// It is being fetched: look again in so many milliseconds.
    Wait(u64),
    /// Fetch it.
    Fetch,
}

/// The client.
pub struct RemoteFilesystem {
    pub server_url: String,
    pub inodes: Inodes,
    pub fetching_chunks: StringHashSet,
    pub is_online: bool,
    pub shutdown: bool,
}

/// The numbers, once each of the paths has one.
pub open spec fn numbered_all(v: InodesView, paths: Seq<Seq<char>>) -> InodesView
    decreases paths.len(),
{
    if paths.len() == 0 {
        v
    } else {
        numbered(numbered_all(v, paths.drop_last()), trim_start(paths.last(), '/'))
    }
}

/// The paths of files.
pub open spec fn paths_of(files: Seq<FileInfo>) -> Seq<Seq<char>> {
    files.map_values(|f: FileInfo| f.path@)
}

/// An entry of a listing.
#[derive(Debug)]
pub struct ListedEntry {
    /// What the entry has to be remembered under.
    pub key: String,
    /// The number of its path.
    pub ino: u64,
    /// What is told of it.
    pub info: FileInfo,
}

/// An entry of a listing is what is told of a file, with the number of its path.
/// It is remembered under the path as it was told, leading slashes and all.
pub open spec fn listed_as(
    entry: ListedEntry,
    file: FileInfo,
    numbers: Map<Seq<char>, u64>,
) -> bool {
    let path = trim_start(file.path@, '/');
    &&& entry.key@ == file.path@
    &&& entry.info == file
    &&& numbers.contains_key(path)
    &&& entry.ino == numbers[path]
}

/// Giving so many paths numbers uses up at most so many.
proof fn lemma_numbered_all(v: InodesView, paths: Seq<Seq<char>>)
    requires
        consistent(v),
        v.next + paths.len() <= u64::MAX,
    ensures
        consistent(numbered_all(v, paths)),
        root_numbered(v) ==> root_numbered(numbered_all(v, paths)),
        v.next <= numbered_all(v, paths).next <= v.next + paths.len(),
    decreases paths.len(),
{
    if paths.len() > 0 {
        lemma_numbered_all(v, paths.drop_last());
    }
}

/// A number that a path has stays its number when a listing gives others theirs.
pub proof fn law_listing_keeps_numbers(v: InodesView, paths: Seq<Seq<char>>, p: Seq<char>)
    requires
        v.numbers.contains_key(p),
    ensures
        numbered_all(v, paths).numbers.contains_key(p),
        numbered_all(v, paths).numbers[p] == v.numbers[p],
    decreases paths.len(),
{
    if paths.len() > 0 {
        law_listing_keeps_numbers(v, paths.drop_last(), p);
    }
}

/// However many paths are given numbers: two of them have the same number if and
/// only if they are the same without their leading slashes, a path has the root's
/// number if and only if nothing else is left of it, the number stands for the
/// path without them, and a number once given is the path's from then on.
pub proof fn law_numbers_name_paths(v: InodesView, paths: Seq<Seq<char>>, i: int, j: int)
    requires
        consistent(v),
        root_numbered(v),
        v.next + paths.len() <= u64::MAX,
        0 <= i < paths.len(),
        0 <= j < paths.len(),
    ensures
        ({
            let p = trim_start(paths[i], '/');
            let q = trim_start(paths[j], '/');
            let given = numbered_all(v, paths.take(i + 1)).numbers;
            let after = numbered_all(v, paths);
            &&& after.numbers.contains_key(p)
            &&& after.numbers.contains_key(q)
            &&& after.numbers[p] == after.numbers[q] <==> p == q
            &&& after.numbers[p] == ROOT_INODE <==> p.len() == 0
            &&& path_of(after, after.numbers[p]) == Some(p)
            &&& given.contains_key(p)
            &&& given[p] == after.numbers[p]
        }),
{
    let p = trim_start(paths[i], '/');
    let q = trim_start(paths[j], '/');
    lemma_numbered_all(v, paths);
    lemma_numbers_stay(v, paths, i + 1);
    lemma_numbers_stay(v, paths, j + 1);
    law_root_alone(numbered_all(v, paths), p);
    law_root_alone(numbered_all(v, paths), q);
}

/// The number of a path that was given one stays its number as more are given.
proof fn lemma_numbers_stay(v: InodesView, paths: Seq<Seq<char>>, n: int)
    requires
        0 < n <= paths.len(),
    ensures
        ({
            let p = trim_start(paths[n - 1], '/');
            let given = numbered_all(v, paths.take(n)).numbers;
            &&& given.contains_key(p)
            &&& numbered_all(v, paths).numbers.contains_key(p)
            &&& numbered_all(v, paths).numbers[p] == given[p]
        }),
    decreases paths.len(),
{
    if n == paths.len() {
        assert(paths.take(n) =~= paths);
    } else {
        assert(paths.drop_last().take(n) =~= paths.take(n));
        lemma_numbers_stay(v, paths.drop_last(), n);
    }
}

/// What has to be done when the server's health was looked at.
#[derive(Debug, Clone, Copy, PartialEq, Eq, Structural)]
pub struct HealthStep {
    /// Whether the server is there.
    pub online: bool,
    /// Whether all that is remembered has to be forgotten.
    pub clear_caches: bool,
    /// Whether the server has just gone.
    pub lost: bool,
    /// How many seconds to wait before the next look.
    pub wait: u64,
}

/// What a look at the server's health means: the server is there if it answers
/// with success. When it is back, what is remembered may be wrong.
pub open spec fn health_after(was_online: bool, status: Option<u16>) -> HealthStep {
    let online = status is Some && success(status->Some_0);
    HealthStep {
        online,
        clear_caches: !was_online && online,
        lost: was_online && !online,
        wait: if online {
            5
        } else {
            2
        },
    }
}

impl RemoteFilesystem {
    /// The numbers are consistent.
    pub open spec fn wf(&self) -> bool {
        consistent(self.inodes@)
    }

    /// All but the numbers is as in `other`.
    pub open spec fn same_but_numbers(&self, other: &Self) -> bool {
        &&& self.server_url@ == other.server_url@
        &&& self.fetching_chunks@ == other.fetching_chunks@
        &&& self.is_online == other.is_online
        &&& self.shutdown == other.shutdown
    }

    /// A client of the server at an address that is well-formed already: it takes
    /// the server to be there, and knows only the root.
    pub fn at(server_url: String) -> (fs: Self)
        ensures
            fs.wf(),
            fs.server_url@ == server_url@,
            fs.is_online,
            !fs.shutdown,
            fs.fetching_chunks@ == Set::<Seq<char>>::empty(),
            fs.inodes@ == root_only(),
    {
        RemoteFilesystem {
            server_url,
            inodes: Inodes::new(),
            fetching_chunks: StringHashSet::new(),
            is_online: true,
            shutdown: false,
        }
    }

    /// A client of the server at `server_url`, if that is an address.
    pub fn new(server_url: &str) -> (r: Option<Self>)
        ensures
            match r {
                Some(fs) => fs.wf() && fs.is_online && !fs.shutdown && parsed_url(server_url@)
                    == Some(fs.server_url@) && fs.fetching_chunks@ == Set::<Seq<char>>::empty()
                    && fs.inodes@ == root_only(),
                None => parsed_url(server_url@) is None,
            },
    {
        match parse_url(server_url) {
            Some(url) => Some(RemoteFilesystem::at(url)),
            None => None,
        }
    }

    /// A request to what `rel` denotes on the server.
    fn ask(&self, rel: &str, method: Method, body: Body) -> (r: Result<Request, Errno>)
        ensures
            asks(r, joined_url(self.server_url@, rel@), method, body@),
    {
        request_to(join_url(self.server_url.as_str(), rel), method, body)
    }

    /// The request that looks at the server's health.
    pub fn health_request(&self) -> (r: Result<Request, Errno>)
        ensures
            asks(r, joined_url(self.server_url@, "health"@), Method::Get, BodyView::Empty),
            r matches Ok(q) ==> q.method == Method::Get && q.body is Empty && joined_url(
                self.server_url@,
                "health"@,
            ) == Some(q.url@),
    {
        self.ask("health", Method::Get, Body::Empty)
    }

    /// Takes note of a look at the server's health: the status of its answer, if
    /// it answered.
    pub fn health_checked(&mut self, was_online: bool, status: Option<u16>) -> (step: HealthStep)
        requires
            old(self).wf(),
        ensures
            final(self).wf(),
            step == health_after(was_online, status),
            final(self).is_online == step.online,
            final(self).inodes@ == old(self).inodes@,
            final(self).fetching_chunks@ == old(self).fetching_chunks@,
            final(self).server_url@ == old(self).server_url@,
            final(self).shutdown == old(self).shutdown,
            step.online <==> (status matches Some(s) && 200 <= s && s <= 299),
            step.clear_caches <==> !was_online && step.online,
            step.lost <==> was_online && !step.online,
            step.online ==> step.wait == 5,
            !step.online ==> step.wait == 2,
    {
        let online = match status {
            Some(s) => is_success(s),
            None => false,
        };
        self.is_online = online;
        HealthStep {
            online,
            clear_caches: !was_online && online,
            lost: was_online && !online,
            wait: if online {
                5
            } else {
                2
            },
        }
    }

    /// The number of `path`.
    pub fn get_allocated_inode(&mut self, path: &str) -> (ino: u64)
        requires
            old(self).wf(),
            old(self).inodes@.next < u64::MAX,
        ensures
            final(self).wf(),
            final(self).same_but_numbers(old(self)),
            final(self).inodes@ == numbered(old(self).inodes@, trim_start(path@, '/')),
            final(self).inodes@.numbers.contains_key(trim_start(path@, '/')),
            ino == final(self).inodes@.numbers[trim_start(path@, '/')],
    {
        self.inodes.get_allocated_inode(path)
    }

    /// The path that a number stands for.
    pub fn get_path_by_ino(&self, ino: u64) -> (r: Option<String>)
        ensures
            match r {
                Some(p) => path_of(self.inodes@, ino) == Some(p@),
                None => path_of(self.inodes@, ino) is None,
            },
    {
        self.inodes.get_path_by_ino(ino)
    }

    /// The metadata of `path` and its number. `recalled` is the number and what
    /// was remembered, if anything was. Whether the server is there counts only
    /// before anything was done.
    pub fn get_stat(
        &mut self,
        path: &str,
        recalled: Option<(u64, Option<FileInfo>)>,
        answer: Option<Outcome<FileInfo>>,
    ) -> (step: StatStep)
        requires
            old(self).wf(),
            recalled is None ==> old(self).inodes@.next < u64::MAX,
        ensures
            final(self).wf(),
            final(self).same_but_numbers(old(self)),
            ({
                let clean = trim_start(path@, '/');
                let before = old(self).inodes@;
                let after = final(self).inodes@;
                match recalled {
                    None => if !old(self).is_online {
                        after == before && (step matches StatStep::Fail(e) && e == Errno::NotConn)
                    } else {
                        after == numbered(before, clean) && (step matches StatStep::Recall(i, key)
                            && i == after.numbers[clean] && key@ == clean)
                    },
                    Some((ino, Some(info))) => after == before && (step matches StatStep::Known(
                        i,
                        f,
                    ) && i == ino && f == info),
                    Some((ino, None)) => after == before && match answer {
                        None => stat_asks(
                            step,
                            joined_url(old(self).server_url@, endpoint("stat"@, clean)),
                        ),
                        Some(a) => stat_told(step, a, ino, clean),
                    },
                }
            }),
            recalled is None && old(self).is_online ==> (step matches StatStep::Recall(i, key)
                && key@ == trim_start(path@, '/') && final(self).inodes@.numbers[key@] == i),
            recalled matches Some((ino, Some(info))) ==> (step matches StatStep::Known(i, f) && i == ino
                && f.size == info.size && f.name == info.name && f.path == info.path && f.file_type
                == info.file_type && f.timestamp == info.timestamp && f.permissions == info.permissions),
            step matches StatStep::Learnt(i, f, key) ==> {
                &&& recalled matches Some((ino, None))
                &&& i == ino
                &&& key@ == trim_start(path@, '/')
                &&& answer matches Some(Outcome::Answered { status, body: Ok(info) })
                &&& status != 404
                &&& f.size == info.size
                &&& f.name == info.name
                &&& f.path == info.path
                &&& f.file_type == info.file_type
                &&& f.timestamp == info.timestamp
                &&& f.permissions == info.permissions
            },
            recalled matches Some((_, None)) ==> (answer matches Some(Outcome::Answered { status, .. })
                ==> (status == 404 <==> step == StatStep::Fail(Errno::NoEnt))),
            recalled matches Some((_, None)) ==> (answer matches Some(Outcome::Answered { status, body })
                ==> (status != 404 && body is Ok <==> step is Learnt)),
            step matches StatStep::Send(q) ==> q.method == Method::Get && q.body is Empty,
            step matches StatStep::Send(q) ==> (path@.len() == 0 ==> joined_url(
                old(self).server_url@,
                "stat"@,
            ) == Some(q.url@)) && (path@.len() > 0 && path@[0] != '/' ==> joined_url(
                old(self).server_url@,
                "stat"@ + "/"@ + path@,
            ) == Some(q.url@)),
    {
        let clean = trim_start_char(path, '/');
        let ino: u64 = match recalled {
            None => {
                if !self.is_online {
                    return StatStep::Fail(Errno::NotConn);
                }
                proof {
                    lemma_trim_twice(path@, '/');
                }
                let ino: u64 = self.inodes.get_allocated_inode(clean);
                return StatStep::Recall(ino, owned(clean));
            },
            Some((ino, Some(info))) => {
                return StatStep::Known(ino, info);
            },
            Some((ino, None)) => ino,
        };
        match answer {
            None => {
                let rel = endpoint_for_path("stat", clean);
                match self.ask(rel.as_str(), Method::Get, Body::Empty) {
                    Ok(q) => StatStep::Send(q),
                    Err(e) => StatStep::Fail(e),
                }
            },
            Some(Outcome::Failed(fault)) => StatStep::Fail(map_net_error(&fault)),
            Some(Outcome::Answered { status, body }) => if status == 404 {
                StatStep::Fail(Errno::NoEnt)
            } else {
                match body {
                    Ok(info) => StatStep::Learnt(ino, info, owned(clean)),
                    Err(fault) => StatStep::Fail(map_net_error(&fault)),
                }
            },
        }
    }

    /// The entries of the directory `path` with their numbers and what each of
    /// them has to be remembered under.
    pub fn list_dir(&mut self, path: &str, answer: Option<Outcome<Vec<FileInfo>>>) -> (step: Remote<
        Vec<ListedEntry>,
    >)
        requires
            old(self).wf(),
            answer matches Some(Outcome::Answered { body: Ok(files), .. }) ==> old(self).inodes@.next + files@.len() <= u64::MAX,
        ensures
            final(self).wf(),
            final(self).same_but_numbers(old(self)),
            match answer {
                None => if !old(self).is_online {
                    final(self).inodes@ == old(self).inodes@ && breaks(step, Errno::NotConn)
                } else {
                    final(self).inodes@ == old(self).inodes@ && sends(
                        step,
                        joined_url(
                            old(self).server_url@,
                            endpoint("list"@, trim_start(path@, '/')),
                        ),
                        Method::Get,
                        BodyView::Empty,
                    )
                },
                Some(Outcome::Failed(fault)) => final(self).inodes@ == old(self).inodes@
                    && breaks(step, net_error(fault)),
                Some(Outcome::Answered { body: Err(fault), .. }) => final(self).inodes@ == old(self).inodes@ && breaks(step, net_error(fault)),
                Some(Outcome::Answered { body: Ok(files), .. }) => {
                    &&& final(self).inodes@ == numbered_all(
                        old(self).inodes@,
                        paths_of(files@),
                    )
                    &&& step matches Remote::Done(Ok(l))
                    &&& l@.len() == files@.len()
                    &&& forall|i: int|
                        0 <= i < files@.len() ==> #[trigger] listed_as(
                            l@[i],
                            files@[i],
                            final(self).inodes@.numbers,
                        )
                },
            },
            step matches Remote::Done(Ok(l)) ==> {
                &&& answer matches Some(Outcome::Answered { body: Ok(files), .. })
                &&& l@.len() == files@.len()
                &&& forall|i: int|
                    0 <= i < files@.len() ==> (#[trigger] l@[i]).info == files@[i] && l@[i].key@
                        == files@[i].path@ && l@[i].ino == final(self).inodes@.numbers[trim_start(
                        files@[i].path@,
                        '/',
                    )]
            },
            answer matches Some(Outcome::Answered { body, .. }) ==> (body is Ok <==> step matches Remote::Done(
                Ok(_),
            )),
            step matches Remote::Send(q) ==> answer is None && q.method == Method::Get && q.body is Empty,
            step matches Remote::Send(q) ==> (path@.len() == 0 ==> joined_url(
                old(self).server_url@,
                "list"@,
            ) == Some(q.url@)) && (path@.len() > 0 && path@[0] != '/' ==> joined_url(
                old(self).server_url@,
                "list"@ + "/"@ + path@,
            ) == Some(q.url@)),
    {
        let clean = trim_start_char(path, '/');
        let files = match answer {
            None => {
                if !self.is_online {
                    return Remote::Done(Err(Errno::NotConn));
                }
                let rel = endpoint_for_path("list", clean);
                return match self.ask(rel.as_str(), Method::Get, Body::Empty) {
                    Ok(q) => Remote::Send(q),
                    Err(e) => Remote::Done(Err(e)),
                };
            },
            Some(Outcome::Failed(fault)) => {
                return Remote::Done(Err(map_net_error(&fault)));
            },
            Some(Outcome::Answered { body: Err(fault), .. }) => {
                return Remote::Done(Err(map_net_error(&fault)));
            },
            Some(Outcome::Answered { body: Ok(files), .. }) => files,
        };
        let mut l: Vec<ListedEntry> = Vec::new();
        let ghost before = self.inodes@;
        let ghost entry = *self;
        let ghost paths = paths_of(files@);
        assert(paths.take(0) =~= Seq::<Seq<char>>::empty());
        for i in 0..files.len()
            invariant
                consistent(before),
                self.wf(),
                self.same_but_numbers(&entry),
                paths == paths_of(files@),
                before.next + files@.len() <= u64::MAX,
                self.inodes@ == numbered_all(before, paths.take(i as int)),
                l@.len() == i,
                forall|k: int|
                    0 <= k < i ==> #[trigger] listed_as(l@[k], files@[k], self.inodes@.numbers),
        {
            proof {
                lemma_numbered_all(before, paths.take(i as int));
                assert(paths.take(i as int + 1).drop_last() =~= paths.take(i as int));
                assert(paths.take(i as int + 1).last() == files@[i as int].path@);
            }
            let ghost held = self.inodes@;
            let ghost listed = l@;
            let file = files[i].clone();
            let ino: u64 = self.inodes.get_allocated_inode(file.path.as_str());
            let key = file.path.clone();
            l.push(ListedEntry { key, ino, info: file });
            assert forall|k: int| 0 <= k < i + 1 implies #[trigger] listed_as(
                l@[k],
                files@[k],
                self.inodes@.numbers,
            ) by {
                if k < i {
                    assert(l@[k] == listed[k]);
                    assert(listed_as(listed[k], files@[k], held.numbers));
                }
            }
        }
        assert(paths.take(paths.len() as int) =~= paths);
        assert forall|k: int| 0 <= k < files@.len() implies (#[trigger] l@[k]).info == files@[k]
            && l@[k].key@ == files@[k].path@ && l@[k].ino == self.inodes@.numbers[trim_start(
            files@[k].path@,
            '/',
        )] by {
            assert(listed_as(l@[k], files@[k], self.inodes@.numbers));
        }
        Remote::Done(Ok(l))
    }

    /// A part of a file, straight from the server.
    pub fn fetch_range(
        &self,
        path_clean: &str,
        offset: u64,
        size: u64,
        answer: Option<Outcome<Vec<u8>>>,
    ) -> (step: Remote<Vec<u8>>)
        ensures
            match answer {
                None => sends(
                    step,
                    joined_url(
                        self.server_url@,
                        part_reference(path_clean@, offset as nat, size as nat),
                    ),
                    Method::Get,
                    BodyView::Empty,
                ),
                Some(a) => carried(step, a),
            },
            answer matches Some(Outcome::Answered { status, body: Ok(bytes) }) ==> (success(status) ==> {
                &&& step matches Remote::Done(Ok(b))
                &&& b@.len() == bytes@.len()
                &&& forall|i: int| 0 <= i < bytes@.len() ==> #[trigger] b@[i] == bytes@[i]
            }),
            step matches Remote::Done(Ok(b)) ==> {
                &&& answer matches Some(Outcome::Answered { status, body: Ok(bytes) })
                &&& 200 <= status <= 299
                &&& b@ == bytes@
            },
            answer matches Some(Outcome::Answered { status, body: Ok(_) }) ==> (200 <= status && status
                <= 299 ==> step matches Remote::Done(Ok(_))),
            answer matches Some(Outcome::Answered { status, .. }) ==> (!(200 <= status && status <= 299)
                ==> breaks(step, Errno::Io)),
            answer is Some ==> !(step is Send),
            step matches Remote::Send(q) ==> answer is None && q.method == Method::Get && q.body is Empty
                && joined_url(
                self.server_url@,
                "files/"@ + path_clean@ + "?offset="@ + decimal(offset as nat) + "&size="@ + decimal(
                    size as nat,
                ),
            ) == Some(q.url@),
    {
        match answer {
            None => {
                let mut rel = owned("files/");
                rel.append(path_clean);
                rel.append("?offset=");
                rel.append(render_decimal(offset).as_str());
                rel.append("&size=");
                rel.append(render_decimal(size).as_str());
                match self.ask(rel.as_str(), Method::Get, Body::Empty) {
                    Ok(q) => Remote::Send(q),
                    Err(e) => Remote::Done(Err(e)),
                }
            },
            Some(Outcome::Failed(fault)) => Remote::Done(Err(map_net_error(&fault))),
            Some(Outcome::Answered { status, body }) => if !is_success(status) {
                Remote::Done(Err(Errno::Io))
            } else {
                match body {
                    Ok(bytes) => Remote::Done(Ok(bytes)),
                    Err(fault) => Remote::Done(Err(map_net_error(&fault))),
                }
            },
        }
    }

    /// What has to be done for the chunk with this key. Where it has to be
    /// fetched, that is noted.
    pub fn fetch_chunk(&mut self, key: &str, remembered: bool) -> (step: ChunkStep)
        requires
            old(self).wf(),
        ensures
            final(self).wf(),
            final(self).inodes@ == old(self).inodes@,
            final(self).server_url@ == old(self).server_url@,
            final(self).is_online == old(self).is_online,
            final(self).shutdown == old(self).shutdown,
            if remembered {
                step == ChunkStep::Use && final(self).fetching_chunks@ == old(self).fetching_chunks@
            } else if old(self).fetching_chunks@.contains(key@) {
                step == ChunkStep::Wait(10) && final(self).fetching_chunks@ == old(self).fetching_chunks@
            } else {
                step == ChunkStep::Fetch && final(self).fetching_chunks@ == old(self).fetching_chunks@.insert(key@)
            },
            remembered <==> step == ChunkStep::Use,
            step == ChunkStep::Fetch <==> !remembered && !old(self).fetching_chunks@.contains(key@),
            step matches ChunkStep::Wait(millis) ==> millis == 10 && old(self).fetching_chunks@.contains(key@),
            step == ChunkStep::Fetch ==> final(self).fetching_chunks@.contains(key@),
            forall|k: Seq<char>|
                k != key@ ==> (#[trigger] final(self).fetching_chunks@.contains(k) <==> old(self).fetching_chunks@.contains(k)),
    {
        if remembered {
            return ChunkStep::Use;
        }
        if self.fetching_chunks.contains(key) {
            return ChunkStep::Wait(10);
        }
        self.fetching_chunks.insert(owned(key));
        ChunkStep::Fetch
    }

    /// Notes that the chunk with this key is no longer being fetched, and says
    /// whether what came has to be remembered.
    pub fn chunk_fetched(&mut self, key: &str, got: bool) -> (remember: bool)
        requires
            old(self).wf(),
        ensures
            final(self).wf(),
            final(self).inodes@ == old(self).inodes@,
            final(self).server_url@ == old(self).server_url@,
            final(self).is_online == old(self).is_online,
            final(self).shutdown == old(self).shutdown,
            final(self).fetching_chunks@ == old(self).fetching_chunks@.remove(key@),
            remember == got,
            !final(self).fetching_chunks@.contains(key@),
            forall|k: Seq<char>|
                k != key@ ==> (#[trigger] final(self).fetching_chunks@.contains(k) <==> old(self).fetching_chunks@.contains(k)),
            got ==> remember,
            !got ==> !remember,
    {
        self.fetching_chunks.remove(key);
        got
    }

    /// Whether a chunk has to be fetched before it is wanted: not when the client
    /// is going down, nor when it is remembered or being fetched. Where it has
    /// to, that is noted.
    pub fn prefetch_next_chunk(&mut self, key: &str, remembered: bool) -> (fetch: bool)
        requires
            old(self).wf(),
        ensures
            final(self).wf(),
            final(self).inodes@ == old(self).inodes@,
            final(self).server_url@ == old(self).server_url@,
            final(self).is_online == old(self).is_online,
            final(self).shutdown == old(self).shutdown,
            fetch == (!old(self).shutdown && !remembered && !old(self).fetching_chunks@.contains(
                key@,
            )),
            final(self).fetching_chunks@ == (if fetch {
                old(self).fetching_chunks@.insert(key@)
            } else {
                old(self).fetching_chunks@
            }),
            old(self).shutdown ==> !fetch,
            remembered ==> !fetch,
            old(self).fetching_chunks@.contains(key@) ==> !fetch,
            !old(self).shutdown && !remembered && !old(self).fetching_chunks@.contains(key@) ==> fetch,
            fetch ==> final(self).fetching_chunks@.contains(key@),
            forall|k: Seq<char>|
                k != key@ ==> (#[trigger] final(self).fetching_chunks@.contains(k) <==> old(self).fetching_chunks@.contains(k)),
    {
        if self.shutdown {
            return false;
        }
        if remembered {
            return false;
        }
        if self.fetching_chunks.contains(key) {
            return false;
        }
        self.fetching_chunks.insert(owned(key));
        true
    }

    /// Whether a fetch ahead brought something to remember.
    pub fn prefetched(answer: &Outcome<Vec<u8>>) -> (r: bool)
        ensures
            r == (answer matches Outcome::Answered { status, body } && success(*status)
                && body is Ok),
            answer is Failed ==> !r,
            *answer matches Outcome::Answered { status, body } ==> (r <==> 200 <= status && status <= 299 && body
                is Ok),
    {
        match answer {
            Outcome::Answered { status, body } => is_success(*status) && match body {
                Ok(_) => true,
                Err(_) => false,
            },
            Outcome::Failed(_) => false,
        }
    }

    /// Notes that the client is going down.
    pub fn shutdown_background_tasks(&mut self)
        requires
            old(self).wf(),
        ensures
            final(self).wf(),
            final(self).shutdown,
            final(self).inodes@ == old(self).inodes@,
            final(self).server_url@ == old(self).server_url@,
            final(self).is_online == old(self).is_online,
            final(self).fetching_chunks@ == old(self).fetching_chunks@,
    {
        self.shutdown = true;
    }

    /// Starts a read of `size` bytes of `path` from `offset` on. What is read
    /// ahead has to have an offset that fits 64 bits.
    pub fn read_file(&self, path: &str, offset: u64, size: u32) -> (r: Result<RemoteRead, Errno>)
        ensures
            if !self.is_online {
                r matches Err(e) && e == Errno::NotConn
            } else {
                r matches Ok(s) && s.wf() && s@ == (ReadView {
                    path: trim_start(path@, '/'),
                    from: offset as nat,
                    requested: size as nat,
                    offset: offset as nat,
                    remaining: size as nat,
                    out: Seq::empty(),
                    finished: size == 0,
                })
            },
            self.is_online <==> r is Ok,
            r matches Err(e) ==> e == Errno::NotConn,
            r matches Ok(s) ==> s.offset == offset && s.from == offset && s.remaining == size && s.requested
                == size && s.out@.len() == 0 && s.path@ == trim_start(path@, '/') && (s.finished <==> size == 0),
    {
        if !self.is_online {
            return Err(Errno::NotConn);
        }
        Ok(
            RemoteRead {
                path: owned(trim_start_char(path, '/')),
                from: offset,
                requested: size as u64,
                offset,
                remaining: size as u64,
                out: Vec::new(),
                finished: size == 0,
            },
        )
    }

    /// Writes `data` into the file `path` at `offset`. When that went well, what
    /// is remembered of the file, and all chunks, have to be forgotten.
    pub fn write_file(
        &self,
        path: &str,
        offset: u64,
        data: Vec<u8>,
        answer: Option<Outcome<()>>,
    ) -> (step: Remote<Upkeep>)
        ensures
            match answer {
                None => if !self.is_online {
                    breaks(step, Errno::NotConn)
                } else {
                    sends(
                        step,
                        joined_url(
                            self.server_url@,
                            "files/"@ + trim_start(path@, '/') + "?offset="@ + decimal(
                                offset as nat,
                            ),
                        ),
                        Method::Put,
                        BodyView::Bytes(data@),
                    )
                },
                Some(a) => outdated(step, a, trim_start(path@, '/')),
            },
            answer matches Some(Outcome::Answered { status, .. }) ==> (200 <= status && status <= 299
                <==> step matches Remote::Done(Ok(_))),
            step matches Remote::Done(Ok(u)) ==> answer is Some && u.forget@ == trim_start(path@, '/')
                && u.remember is None,
            step matches Remote::Send(q) ==> answer is None && q.method == Method::Put && (q.body
                matches Body::Bytes(b) && b@ == data@),
            step matches Remote::Send(q) ==> joined_url(self.server_url@, "files/"@ + trim_start(path@, '/') + "?offset="@
                + decimal(offset as nat)) == Some(q.url@),
    {
        match answer {
            None => {
                if !self.is_online {
                    return Remote::Done(Err(Errno::NotConn));
                }
                let mut rel = owned("files/");
                rel.append(trim_start_char(path, '/'));
                rel.append("?offset=");
                rel.append(render_decimal(offset).as_str());
                match self.ask(rel.as_str(), Method::Put, Body::Bytes(data)) {
                    Ok(q) => Remote::Send(q),
                    Err(e) => Remote::Done(Err(e)),
                }
            },
            Some(a) => outdate(&a, trim_start_char(path, '/')),
        }
    }

    /// Makes the directory `path`.
    pub fn create_dir(&self, path: &str, answer: Option<Outcome<()>>) -> (step: Remote<()>)
        ensures
            match answer {
                None => if !self.is_online {
                    breaks(step, Errno::NotConn)
                } else {
                    sends(
                        step,
                        joined_url(self.server_url@, "mkdir/"@ + trim_start(path@, '/')),
                        Method::Post,
                        BodyView::Empty,
                    )
                },
                Some(a) => confirmed(step, a),
            },
            answer matches Some(Outcome::Answered { status, .. }) ==> (200 <= status && status <= 299
                <==> step matches Remote::Done(Ok(_))),
            step matches Remote::Done(Ok(_)) ==> answer is Some,
            step matches Remote::Send(q) ==> answer is None && q.method == Method::Post && q.body is Empty,
            step matches Remote::Send(q) ==> joined_url(self.server_url@, "mkdir/"@ + trim_start(path@, '/')) == Some(q.url@),
    {
        match answer {
            None => {
                if !self.is_online {
                    return Remote::Done(Err(Errno::NotConn));
                }
                let mut rel = owned("mkdir/");
                rel.append(trim_start_char(path, '/'));
                match self.ask(rel.as_str(), Method::Post, Body::Empty) {
                    Ok(q) => Remote::Send(q),
                    Err(e) => Remote::Done(Err(e)),
                }
            },
            Some(a) => confirm(&a),
        }
    }

    /// Deletes what stands at `path`. When that went well, what is remembered of
    /// it, and all chunks, have to be forgotten.
    pub fn delete_path(&self, path: &str, answer: Option<Outcome<()>>) -> (step: Remote<Upkeep>)
        ensures
            match answer {
                None => if !self.is_online {
                    breaks(step, Errno::NotConn)
                } else {
                    sends(
                        step,
                        joined_url(self.server_url@, "files/"@ + trim_start(path@, '/')),
                        Method::Delete,
                        BodyView::Empty,
                    )
                },
                Some(a) => outdated(step, a, trim_start(path@, '/')),
            },
            answer matches Some(Outcome::Answered { status, .. }) ==> (200 <= status && status <= 299
                <==> step matches Remote::Done(Ok(_))),
            step matches Remote::Done(Ok(u)) ==> answer is Some && u.forget@ == trim_start(path@, '/')
                && u.remember is None,
            step matches Remote::Send(q) ==> answer is None && q.method == Method::Delete && q.body is Empty,
            step matches Remote::Send(q) ==> joined_url(self.server_url@, "files/"@ + trim_start(path@, '/')) == Some(q.url@),
    {
        match answer {
            None => {
                if !self.is_online {
                    return Remote::Done(Err(Errno::NotConn));
                }
                let mut rel = owned("files/");
                rel.append(trim_start_char(path, '/'));
                match self.ask(rel.as_str(), Method::Delete, Body::Empty) {
                    Ok(q) => Remote::Send(q),
                    Err(e) => Remote::Done(Err(e)),
                }
            },
            Some(a) => outdate(&a, trim_start_char(path, '/')),
        }
    }

    /// Gives what stands at `old_path` the path `new_path`. `recalled` is what is
    /// remembered under the old path when the answer comes. When that went well,
    /// the number goes with the file, and so does what is remembered of it.
    pub fn rename(
        &mut self,
        old_path: &str,
        new_path: &str,
        recalled: Option<(u64, FileInfo)>,
        answer: Option<Outcome<()>>,
    ) -> (step: Remote<Upkeep>)
        requires
            old(self).wf(),
        ensures
            final(self).wf(),
            final(self).same_but_numbers(old(self)),
            ({
                let old_clean = trim_start(old_path@, '/');
                let new_clean = trim_start(new_path@, '/');
                match answer {
                    None => if !old(self).is_online {
                        breaks(step, Errno::NotConn) && final(self).inodes@ == old(self).inodes@
                    } else {
                        sends(
                            step,
                            joined_url(old(self).server_url@, "rename/"@ + old_clean),
                            Method::Post,
                            BodyView::NewPath(new_clean),
                        ) && final(self).inodes@ == old(self).inodes@
                    },
                    Some(Outcome::Failed(fault)) => breaks(step, net_error(fault))
                        && final(self).inodes@ == old(self).inodes@,
                    Some(Outcome::Answered { status, .. }) => if success(status) {
                        &&& step matches Remote::Done(Ok(u))
                        &&& u.forget@ == old_clean
                        &&& carried_over(recalled, u.remember, new_clean)
                        &&& final(self).inodes@ == moved(
                            old(self).inodes@,
                            old_clean,
                            new_clean,
                        )
                    } else {
                        breaks(step, Errno::Io) && final(self).inodes@ == old(self).inodes@
                    },
                }
            }),
            answer matches Some(Outcome::Answered { status, .. }) ==> (200 <= status && status <= 299
                <==> step matches Remote::Done(Ok(_))),
            step matches Remote::Done(Ok(u)) ==> answer is Some && u.forget@ == trim_start(old_path@, '/'),
            step matches Remote::Done(Ok(u)) ==> (recalled is Some <==> u.remember is Some),
            step matches Remote::Done(Ok(u)) ==> (recalled matches Some((ino, info)) ==> {
                &&& u.remember matches Some(r)
                &&& r.0@ == trim_start(new_path@, '/')
                &&& r.1 == ino
                &&& r.2.path@ == trim_start(new_path@, '/')
                &&& r.2.size == info.size
                &&& r.2.name == info.name
                &&& r.2.file_type == info.file_type
                &&& r.2.timestamp == info.timestamp
                &&& r.2.permissions == info.permissions
            }),
            step matches Remote::Done(Err(_)) ==> final(self).inodes@ == old(self).inodes@,
            step matches Remote::Send(q) ==> answer is None && q.method == Method::Post && (q.body
                matches Body::NewPath(p) && p@ == trim_start(new_path@, '/')),
            step matches Remote::Send(q) ==> joined_url(old(self).server_url@, "rename/"@ + trim_start(
                old_path@,
                '/',
            )) == Some(q.url@),
            step matches Remote::Done(Ok(_)) ==> (old(self).inodes@.numbers.contains_key(
                trim_start(old_path@, '/'),
            ) ==> final(self).inodes@.numbers.contains_key(trim_start(new_path@, '/'))
                && final(self).inodes@.numbers[trim_start(new_path@, '/')] == old(self).inodes@.numbers[trim_start(old_path@, '/')]),
    {
        let old_clean = trim_start_char(old_path, '/');
        let new_clean = trim_start_char(new_path, '/');
        match answer {
            None => {
                if !self.is_online {
                    return Remote::Done(Err(Errno::NotConn));
                }
                let mut rel = owned("rename/");
                rel.append(old_clean);
                match self.ask(rel.as_str(), Method::Post, Body::NewPath(owned(new_clean))) {
                    Ok(q) => Remote::Send(q),
                    Err(e) => Remote::Done(Err(e)),
                }
            },
            Some(a) => match confirm(&a) {
                Remote::Done(Ok(_)) => {
                    self.inodes.rename(old_clean, new_clean);
                    let remember = match recalled {
                        Some((ino, info)) => Some(
                            (owned(new_clean), ino, FileInfo { path: owned(new_clean), ..info }),
                        ),
                        None => None,
                    };
                    Remote::Done(Ok(Upkeep { forget: owned(old_clean), remember }))
                },
                Remote::Done(Err(e)) => Remote::Done(Err(e)),
                Remote::Send(q) => Remote::Send(q),
            },
        }
    }
}

/// What was remembered of a file is remembered under its new path, with that
/// path and nothing else changed.
pub open spec fn carried_over(
    recalled: Option<(u64, FileInfo)>,
    remember: Option<(String, u64, FileInfo)>,
    path: Seq<char>,
) -> bool {
    match recalled {
        None => remember is None,
        Some((ino, info)) => {
            &&& remember matches Some(r)
            &&& r.0@ == path
            &&& r.1 == ino
            &&& r.2.path@ == path
            &&& r.2 == (FileInfo { path: r.2.path, ..info })
        },
    }
}

/// Trimming twice is trimming once.
pub proof fn lemma_trim_twice(s: Seq<char>, c: char)
    ensures
        trim_start(trim_start(s, c), c) == trim_start(s, c),
    decreases s.len(),
{
    if s.len() > 0 && s[0] == c {
        lemma_trim_twice(s.drop_first(), c);
    }
}

/// A read under way.
#[derive(Debug)]
pub struct RemoteRead {
    pub path: String,
    pub from: u64,
    pub requested: u64,
    pub offset: u64,
    pub remaining: u64,
    pub out: Vec<u8>,
    pub finished: bool,
}

/// The model of a read under way.
#[verifier::ext_equal]
pub struct ReadView {
    pub path: Seq<char>,
    pub from: nat,
    pub requested: nat,
    pub offset: nat,
    pub remaining: nat,
    pub out: Seq<u8>,
    pub finished: bool,
}

impl View for RemoteRead {
    type V = ReadView;

    open spec fn view(&self) -> ReadView {
        ReadView {
            path: self.path@,
            from: self.from as nat,
            requested: self.requested as nat,
            offset: self.offset as nat,
            remaining: self.remaining as nat,
            out: self.out@,
            finished: self.finished,
        }
    }
}

/// The start of the chunk that the read stands in.
pub open spec fn standing(s: ReadView) -> int {
    chunk_start(s.offset as int, READ_CHUNK_SIZE as int)
}

/// What the read takes of the chunk it stands in.
pub open spec fn taken(s: ReadView, chunk: Seq<u8>) -> Seq<u8> {
    slice(chunk, s.offset - standing(s), s.remaining as int)
}

/// The read once it got the chunk it stands in. It is over when it has all it
/// wants, when the chunk is short, because the file ends there, or when no offset
/// is left.
pub open spec fn fed(s: ReadView, chunk: Seq<u8>) -> ReadView {
    let piece = taken(s, chunk);
    let end = s.offset + piece.len();
    if s.offset - standing(s) >= chunk.len() {
        ReadView { finished: true, ..s }
    } else {
        ReadView {
            offset: if end <= u64::MAX {
                end
            } else {
                u64::MAX as nat
            },
            remaining: (s.remaining - piece.len()) as nat,
            out: s.out + piece,
            finished: chunk.len() < READ_CHUNK_SIZE || s.remaining == piece.len() || end
                > u64::MAX,
            ..s
        }
    }
}

/// What a read wants next.
#[derive(Debug)]
pub enum ReadStep {
    /// The chunk that starts here, and the one behind it ahead of time, unless
    /// there is no offset for it.
    Want { chunk: u64, ahead: Option<u64> },
    /// Nothing: it is over.
    Over,
}

impl RemoteRead {
    /// A read that goes on wants something.
    pub open spec fn wf(&self) -> bool {
        !self.finished ==> self.remaining > 0
    }

    /// What the read wants next.
    pub fn wanted(&self) -> (step: ReadStep)
        requires
            self.wf(),
        ensures
            if self.finished {
                step is Over
            } else {
                step matches ReadStep::Want { chunk, ahead } && chunk == standing(self@)
                    && match ahead {
                    Some(next) => next == chunk + READ_CHUNK_SIZE,
                    None => chunk + READ_CHUNK_SIZE > u64::MAX,
                }
            },
            step is Over <==> self.finished,
            step matches ReadStep::Want { chunk, .. } ==> chunk % 8_388_608 == 0 && chunk <= self.offset
                < chunk + 8_388_608,
            step matches ReadStep::Want { chunk, ahead } ==> (ahead matches Some(next) ==> next == chunk
                + 8_388_608),
    {
        if self.finished {
            return ReadStep::Over;
        }
        let chunk: u64 = self.offset - self.offset % READ_CHUNK_SIZE;
        ReadStep::Want { chunk, ahead: chunk.checked_add(READ_CHUNK_SIZE) }
    }

    /// What is read instead when a chunk could not be had: all that was asked
    /// for, from its beginning, past the chunks that are remembered, which have
    /// to be forgotten.
    pub fn failed(&self) -> (r: (u64, u64))
        ensures
            r.0 == self@.from,
            r.1 == self@.requested,
            r.0 == self.from,
            r.1 == self.requested,
    {
        (self.from, self.requested)
    }

    /// Hands in the chunk that the read wants.
    pub fn feed(&mut self, chunk: &Vec<u8>)
        requires
            old(self).wf(),
            !old(self).finished,
        ensures
            final(self).wf(),
            final(self)@ == fed(old(self)@, chunk@),
            final(self).path == old(self).path,
            final(self).from == old(self).from,
            final(self).requested == old(self).requested,
            final(self).out@.len() + final(self).remaining == old(self).out@.len() + old(self).remaining,
            forall|i: int|
                0 <= i < old(self).out@.len() ==> #[trigger] final(self).out@[i] == old(self).out@[i],
            forall|i: int|
                old(self).out@.len() <= i < final(self).out@.len() ==> #[trigger] final(self).out@[i]
                    == chunk@[old(self).offset % 8_388_608 + (i - old(self).out@.len())],
            final(self).out@.len() < old(self).out@.len() + old(self).remaining ==> final(self).out@.len()
                - old(self).out@.len() + old(self).offset % 8_388_608 >= chunk@.len(),
    {
        let within: u64 = self.offset % READ_CHUNK_SIZE;
        let len: u64 = chunk.len() as u64;
        if within >= len {
            self.finished = true;
            return;
        }
        let mut piece = crate::bytes::slice_of(chunk, within, self.remaining);
        let n: u64 = piece.len() as u64;
        let ghost taken_piece = piece@;
        self.out.append(&mut piece);
        self.remaining = self.remaining - n;
        self.finished = len < READ_CHUNK_SIZE || self.remaining == 0;
        match self.offset.checked_add(n) {
            Some(end) => {
                self.offset = end;
            },
            None => {
                self.offset = u64::MAX;
                self.finished = true;
            },
        }
        assert(self@ =~= fed(old(self)@, chunk@));
    }
}

/// The read is on its way to the `requested` bytes of `content`, and has them
/// once it is finished. The file is one whose bytes all have an offset.
pub open spec fn on_its_way(s: ReadView, content: Seq<u8>) -> bool {
    &&& s.offset == s.from + s.out.len()
    &&& s.remaining + s.out.len() == s.requested
    &&& !s.finished ==> s.remaining > 0
    &&& s.out == slice(content, s.from as int, s.out.len() as int)
    &&& s.finished ==> s.out == slice(content, s.from as int, s.requested as int)
    &&& content.len() <= u64::MAX
}

/// A read whose chunks come from the file ends up with exactly the bytes asked
/// for, as far as the file has them, and every chunk brings it nearer its end.
pub proof fn law_remote_read(s: ReadView, content: Seq<u8>)
    requires
        on_its_way(s, content),
        !s.finished,
    ensures
        ({
            let chunk = slice(content, standing(s), READ_CHUNK_SIZE as int);
            &&& on_its_way(fed(s, chunk), content)
            &&& fed(s, chunk).finished || fed(s, chunk).remaining < s.remaining
        }),
{
    let chunk = slice(content, standing(s), READ_CHUNK_SIZE as int);
    let next = fed(s, chunk);
    let piece = taken(s, chunk);
    if s.offset - standing(s) >= chunk.len() {
        assert(s.out =~= slice(content, s.from as int, s.requested as int));
    } else {
        assert(next.out =~= slice(content, s.from as int, next.out.len() as int));
        if next.finished {
            assert(next.out =~= slice(content, s.from as int, s.requested as int));
        }
    }
}

/// The key of a chunk tells the file and the place of the chunk.
pub proof fn law_chunk_key_identifies(p: Seq<char>, a: nat, q: Seq<char>, b: nat)
    requires
        key_of_chunk(p, a) == key_of_chunk(q, b),
    ensures
        p == q,
        a == b,
{
    reveal_strlit(":");
    let (da, db) = (decimal(a), decimal(b));
    lemma_decimal_digits(a);
    lemma_decimal_digits(b);
    let k = key_of_chunk(p, a);
    let n = k.len() as int;
    assert(k[n - da.len() - 1] == ':');
    assert(k[n - db.len() - 1] == ':');
    if da.len() < db.len() {
        let i = db.len() - da.len() - 1;
        assert(is_digit(db[i], 10));
        assert(k[n - da.len() - 1] == db[i]);
    }
    if db.len() < da.len() {
        let i = da.len() - db.len() - 1;
        assert(is_digit(da[i], 10));
        assert(k[n - db.len() - 1] == da[i]);
    }
    assert(p =~= k.take(n - da.len() - 1));
    assert(q =~= k.take(n - db.len() - 1));
    assert(da =~= k.skip(n - da.len()));
    assert(db =~= k.skip(n - db.len()));
}

/// The chunks that are remembered of a file are those of `content`.
pub open spec fn mirrors(
    chunks: Map<Seq<char>, Seq<u8>>,
    path: Seq<char>,
    content: Seq<u8>,
) -> bool {
    forall|start: nat| #[trigger]
        chunks.contains_key(key_of_chunk(path, start)) ==> chunks[key_of_chunk(path, start)]
            == slice(content, start as int, READ_CHUNK_SIZE as int)
}

/// The chunk that a read is fed: the one that is remembered, or the one that the
/// server has.
pub open spec fn chunk_for(
    chunks: Map<Seq<char>, Seq<u8>>,
    s: ReadView,
    content: Seq<u8>,
) -> Seq<u8> {
    let key = key_of_chunk(s.path, standing(s) as nat);
    if chunks.contains_key(key) {
        chunks[key]
    } else {
        slice(content, standing(s), READ_CHUNK_SIZE as int)
    }
}

/// While the chunks that are remembered are those of the file, so are they after
/// a read has had one more remembered, and the read gets the bytes of the file.
/// What is remembered of other files is untouched by it.
pub proof fn law_read_through_memory(
    chunks: Map<Seq<char>, Seq<u8>>,
    s: ReadView,
    content: Seq<u8>,
    other: Seq<char>,
    other_content: Seq<u8>,
)
    requires
        mirrors(chunks, s.path, content),
        mirrors(chunks, other, other_content),
        on_its_way(s, content),
        !s.finished,
    ensures
        ({
            let chunk = chunk_for(chunks, s, content);
            let after = chunks.insert(key_of_chunk(s.path, standing(s) as nat), chunk);
            &&& on_its_way(fed(s, chunk), content)
            &&& fed(s, chunk).finished || fed(s, chunk).remaining < s.remaining
            &&& mirrors(after, s.path, content)
            &&& other != s.path ==> mirrors(after, other, other_content)
        }),
{
    let chunk = chunk_for(chunks, s, content);
    let key = key_of_chunk(s.path, standing(s) as nat);
    let after = chunks.insert(key, chunk);
    assert(standing(s) >= 0);
    assert(chunk == slice(content, standing(s), READ_CHUNK_SIZE as int));
    law_remote_read(s, content);
    assert forall|start: nat| #[trigger]
        after.contains_key(key_of_chunk(s.path, start)) implies after[key_of_chunk(s.path, start)]
        == slice(content, start as int, READ_CHUNK_SIZE as int) by {
        if key_of_chunk(s.path, start) == key {
            law_chunk_key_identifies(s.path, start, s.path, standing(s) as nat);
        } else {
            assert(chunks.contains_key(key_of_chunk(s.path, start)));
        }
    }
    if other != s.path {
        assert forall|start: nat| #[trigger]
            after.contains_key(key_of_chunk(other, start)) implies after[key_of_chunk(other, start)]
            == slice(other_content, start as int, READ_CHUNK_SIZE as int) by {
            if key_of_chunk(other, start) == key {
                law_chunk_key_identifies(other, start, s.path, standing(s) as nat);
            } else {
                assert(chunks.contains_key(key_of_chunk(other, start)));
            }
        }
    }
}

/// After the server changed something, no read sees what was there before: the
/// chunks that are remembered are those of whatever the files now hold, and
/// nothing is remembered of the file that was changed, unless it was renamed to
/// its own path.
pub proof fn law_change_is_seen(m: Memory, u: Upkeep, path: Seq<char>, content: Seq<u8>)
    ensures
        mirrors(kept_up(m, u).chunks, path, content),
        !(u.remember matches Some(r) && r.0@ == u.forget@) ==> !kept_up(
            m,
            u,
        ).metadata.contains_key(u.forget@),
        path != u.forget@ && !(u.remember matches Some(r) && r.0@ == path) ==> kept_up(
            m,
            u,
        ).metadata.contains_key(path) == m.metadata.contains_key(path),
        path != u.forget@ && !(u.remember matches Some(r) && r.0@ == path) ==> kept_up(
            m,
            u,
        ).metadata[path] == m.metadata[path],
{
}

/// A look at the server's health found it there.
pub open spec fn found(status: Option<u16>) -> bool {
    status is Some && success(status->Some_0)
}

/// Nothing that was remembered while the server was away outlives its coming
/// back: of a series of looks at its health, each of which knows what the one
/// before found, one behind a look that missed it and not behind the next one
/// that found it has all that is remembered forgotten.
pub proof fn law_back_online_clears(statuses: Seq<Option<u16>>, i: int, j: int)
    requires
        0 <= i < j < statuses.len(),
        !found(statuses[i]),
        found(statuses[j]),
    ensures
        exists|k: int|
            i < k <= j && (#[trigger] health_after(
                found(statuses[k - 1]),
                statuses[k],
            )).clear_caches,
    decreases j - i,
{
    if found(statuses[i + 1]) {
        assert(health_after(found(statuses[i + 1 - 1]), statuses[i + 1]).clear_caches);
    } else {
        law_back_online_clears(statuses, i + 1, j);
    }
}

/// A part of a file is what the server sent: as many bytes, and at every place the
/// same one. Two answers that differ in a byte or in their length give parts that
/// do, and nothing but a success with a body gives any.
pub proof fn law_carried(
    step: Remote<Vec<u8>>,
    answer: Outcome<Vec<u8>>,
    other_step: Remote<Vec<u8>>,
    other: Outcome<Vec<u8>>,
)
    requires
        carried(step, answer),
        carried(other_step, other),
    ensures
        answer matches Outcome::Answered { status, body: Ok(bytes) } ==> (200 <= status && status
            <= 299 ==> {
            &&& step matches Remote::Done(Ok(b))
            &&& b@.len() == bytes@.len()
            &&& forall|i: int| 0 <= i < bytes@.len() ==> #[trigger] b@[i] == bytes@[i]
        }),
        step matches Remote::Done(Ok(b)) ==> {
            &&& answer matches Outcome::Answered { status, body: Ok(bytes) }
            &&& 200 <= status <= 299
            &&& b@ == bytes@
        },
        step matches Remote::Done(Ok(b)) ==> (other_step matches Remote::Done(Ok(c)) ==> (b@ == c@
            ==> (answer matches Outcome::Answered { body: Ok(x), .. } && (other
            matches Outcome::Answered { body: Ok(y), .. } && x@ == y@)))),
{
}

/// Whether an answer counts as a success, and what is forgotten then, depends on
/// its status alone: what lies outside 200 to 299 is an input/output error.
pub proof fn law_outdated(step: Remote<Upkeep>, answer: Outcome<()>, path: Seq<char>)
    requires
        outdated(step, answer, path),
    ensures
        answer matches Outcome::Answered { status, .. } ==> (200 <= status && status <= 299 <==> step
            matches Remote::Done(Ok(_))),
        step matches Remote::Done(Ok(u)) ==> u.forget@ == path && u.remember is None,
        answer matches Outcome::Answered { status, .. } ==> (!(200 <= status && status <= 299)
            ==> step == Remote::<Upkeep>::Done(Err(Errno::Io))),
        answer == Outcome::<()>::Failed(NetworkFault::Timeout) ==> step == Remote::<Upkeep>::Done(
            Err(Errno::TimedOut),
        ),
        answer == Outcome::<()>::Failed(NetworkFault::Connect) ==> step == Remote::<Upkeep>::Done(
            Err(Errno::ConnRefused),
        ),
{
}

/// An answer of which only the success counts is a success from 200 to 299, and an
/// input/output error otherwise.
pub proof fn law_confirmed(step: Remote<()>, answer: Outcome<()>)
    requires
        confirmed(step, answer),
    ensures
        answer matches Outcome::Answered { status, .. } ==> (200 <= status && status <= 299 <==> step
            matches Remote::Done(Ok(_))),
        answer matches Outcome::Answered { status, .. } ==> (!(200 <= status && status <= 299)
            ==> step == Remote::<()>::Done(Err(Errno::Io))),
        answer == Outcome::<()>::Failed(NetworkFault::Timeout) ==> step == Remote::<()>::Done(
            Err(Errno::TimedOut),
        ),
        answer == Outcome::<()>::Failed(NetworkFault::Connect) ==> step == Remote::<()>::Done(
            Err(Errno::ConnRefused),
        ),
{
}

/// What is learnt of a path is what the server told, in every field, under the
/// path's own number and key; nothing is learnt from an answer that says there is
/// no such file.
pub proof fn law_stat_told(
    step: StatStep,
    answer: Outcome<FileInfo>,
    ino: u64,
    path: Seq<char>,
)
    requires
        stat_told(step, answer, ino, path),
    ensures
        step is Learnt || step is Fail,
        step matches StatStep::Learnt(i, f, key) ==> {
            &&& i == ino
            &&& key@ == path
            &&& answer matches Outcome::Answered { status, body: Ok(info) }
            &&& status != 404
            &&& f.name == info.name
            &&& f.path == info.path
            &&& f.file_type == info.file_type
            &&& f.size == info.size
            &&& f.timestamp == info.timestamp
            &&& f.permissions == info.permissions
        },
        answer matches Outcome::Answered { status, body: Ok(_) } ==> (status != 404 <==> step
            is Learnt),
        answer matches Outcome::Answered { status, .. } ==> (status == 404 <==> step
            == StatStep::Fail(Errno::NoEnt)),
{
}

/// The references of two parts of one file are the same only where their offsets
/// and sizes are.
pub proof fn law_part_reference(path: Seq<char>, offset: nat, size: nat)
    ensures
        ({
            let r = part_reference(path, offset, size);
            let head = 6 + path.len();
            let middle = head + 8 + decimal(offset).len();
            &&& r.len() == middle + 6 + decimal(size).len()
            &&& r.subrange(0, 6) == "files/"@
            &&& r.subrange(6, head as int) == path
            &&& r.subrange(head as int, head as int + 8) == "?offset="@
            &&& r.subrange(head as int + 8, middle as int) == decimal(offset)
            &&& r.subrange(middle as int, middle as int + 6) == "&size="@
            &&& r.subrange(middle as int + 6, r.len() as int) == decimal(size)
        }),
{
    reveal_strlit("files/");
    reveal_strlit("?offset=");
    reveal_strlit("&size=");
    let r = part_reference(path, offset, size);
    let head = 6 + path.len();
    let middle = head + 8 + decimal(offset).len();
    assert(r.subrange(0, 6) =~= "files/"@);
    assert(r.subrange(6, head as int) =~= path);
    assert(r.subrange(head as int, head as int + 8) =~= "?offset="@);
    assert(r.subrange(head as int + 8, middle as int) =~= decimal(offset));
    assert(r.subrange(middle as int, middle as int + 6) =~= "&size="@);
    assert(r.subrange(middle as int + 6, r.len() as int) =~= decimal(size));
}

/// The key of a chunk begins with the path, goes on with a colon and ends with the
/// digits of the place.
pub proof fn law_chunk_key(path: Seq<char>, start: nat)
    ensures
        ({
            let k = key_of_chunk(path, start);
            let n = path.len() as int;
            &&& k.take(n) == path
            &&& k[n] == ':'
            &&& k.skip(n + 1) == decimal(start)
        }),
{
    reveal_strlit(":");
    let k = key_of_chunk(path, start);
    let n = path.len() as int;
    assert(k.take(n) =~= path);
    assert(k.skip(n + 1) =~= decimal(start));
}

/// Behind the prefix of an endpoint stands nothing for the root, and a slash and
/// the path for anything else.
pub proof fn law_endpoint(prefix: Seq<char>, path: Seq<char>)
    ensures
        endpoint(prefix, path).take(prefix.len() as int) == prefix,
        path.len() == 0 ==> endpoint(prefix, path) == prefix,
        path.len() > 0 ==> endpoint(prefix, path)[prefix.len() as int] == '/' && endpoint(
            prefix,
            path,
        ).skip(prefix.len() as int + 1) == path,
{
    reveal_strlit("/");
    assert(endpoint(prefix, path).take(prefix.len() as int) =~= prefix);
    if path.len() > 0 {
        assert(endpoint(prefix, path).skip(prefix.len() as int + 1) =~= path);
    }
}

/// A chunk that is handed in adds its bytes from where the read stands, one behind
/// the other, until the read has what it wants or the chunk ends. What was read
/// before stays, and the read never asks for more than it was asked for.
pub proof fn law_fed(s: ReadView, chunk: Seq<u8>)
    requires
        s.offset <= u64::MAX,
        s.remaining > 0,
    ensures
        ({
            let t = fed(s, chunk);
            let within = s.offset as int % 8_388_608;
            let gained = t.out.len() - s.out.len();
            &&& t.path == s.path && t.from == s.from && t.requested == s.requested
            &&& 0 <= gained <= s.remaining
            &&& t.remaining == s.remaining - gained
            &&& t.out.take(s.out.len() as int) == s.out
            &&& forall|i: int|
                0 <= i < gained ==> t.out[s.out.len() + i] == #[trigger] chunk[within + i]
            &&& gained < s.remaining ==> within + gained >= chunk.len()
            &&& gained == s.remaining ==> t.finished
            &&& chunk.len() < 8_388_608 ==> t.finished
            &&& chunk.len() == 8_388_608 && gained < s.remaining && s.offset + gained <= u64::MAX
                ==> !t.finished && t.offset == s.offset + gained
        }),
{
    let t = fed(s, chunk);
    assert(t.out.take(s.out.len() as int) =~= s.out);
}

} // verus!
