//! The client's caches: chunks of file contents, and directory listings.

use std::collections::HashMap;

use vstd::prelude::*;
use vstd::string::*;

use crate::api::{copy_entries, ApiError, FileEntry};
use crate::bytes::{slice, slice_of};
use crate::clock::{expired, has_expired, Clock, Reading};
use crate::numeral::{parse_u32, parse_usize, parsed_within};
use crate::table::PathTable;
use crate::text::{find_last, last_position, owned, trim, trim_white};

verus! {

broadcast use vstd::std_specs::hash::group_hash_axioms;

/// The chunk size, in bytes, where none is configured.
pub const CHUNK_SIZE: u32 = 1_048_576;

/// The bound on the cached bytes of one file where none is configured.
pub const MAX_CACHE_SIZE: usize = 10_485_760;

/// The smallest and the largest chunk size that can be configured.
pub const MIN_CHUNK_SIZE: u32 = 65_536;

pub const MAX_CHUNK_SIZE: u32 = 8_388_608;

/// The smallest and the largest bound that can be configured.
pub const MIN_CACHE_SIZE: usize = 4_194_304;

pub const MAX_CACHE_SIZE_LIMIT: usize = 1_073_741_824;

/// How long metadata, listings and file contents are good for, in nanoseconds.
pub const METADATA_CACHE_TTL: u64 = 5_000_000_000;

pub const DIRECTORY_CACHE_TTL: u64 = 3_000_000_000;

pub const DATA_CACHE_TTL: u64 = 10_000_000_000;

/// `n` brought into the range from `low` to `high`.
pub open spec fn clamped(n: nat, low: nat, high: nat) -> nat {
    if n < low {
        low
    } else if n > high {
        high
    } else {
        n
    }
}

/// The chunk size that the setting `raw` asks for: a positive number of
/// kibibytes, brought into range. Anything else counts as no setting.
pub open spec fn chunk_size_for(raw: Option<Seq<char>>) -> nat {
    match raw {
        Some(text) => match parsed_within(trim_white(text), 10, u32::MAX as nat) {
            Some(kib) => if kib > 0 {
                clamped(kib * 1024, MIN_CHUNK_SIZE as nat, MAX_CHUNK_SIZE as nat)
            } else {
                CHUNK_SIZE as nat
            },
            None => CHUNK_SIZE as nat,
        },
        None => CHUNK_SIZE as nat,
    }
}

/// The bound that the setting `raw` asks for: a positive number of mebibytes,
/// brought into range. Anything else counts as no setting.
pub open spec fn cache_size_for(raw: Option<Seq<char>>) -> nat {
    match raw {
        Some(text) => match parsed_within(trim_white(text), 10, usize::MAX as nat) {
            Some(mib) => if mib > 0 {
                clamped(mib * 1_048_576, MIN_CACHE_SIZE as nat, MAX_CACHE_SIZE_LIMIT as nat)
            } else {
                MAX_CACHE_SIZE as nat
            },
            None => MAX_CACHE_SIZE as nat,
        },
        None => MAX_CACHE_SIZE as nat,
    }
}

/// The text of an optional string.
pub open spec fn opt_text(raw: Option<&str>) -> Option<Seq<char>> {
    match raw {
        Some(s) => Some(s@),
        None => None,
    }
}

/// The chunk size that the setting `raw` asks for.
pub fn configured_chunk_size(raw: Option<&str>) -> (n: u32)
    ensures
        n == chunk_size_for(opt_text(raw)),
        65_536 <= n <= 8_388_608,
        n % 1024 == 0,
        raw is None ==> n == 1_048_576,
        raw matches Some(text) ==> match parsed_within(trim_white(text@), 10, u32::MAX as nat) {
            Some(kib) => {
                &&& kib == 0 ==> n == 1_048_576
                &&& 64 <= kib <= 8192 ==> n == kib * 1024
                &&& 0 < kib < 64 ==> n == 65_536
                &&& kib > 8192 ==> n == 8_388_608
            },
            None => n == 1_048_576,
        },
{
    match raw {
        Some(text) => match parse_u32(trim(text)) {
            Some(kib) => if kib == 0 {
                CHUNK_SIZE
            } else if kib < 64 {
                MIN_CHUNK_SIZE
            } else if kib > 8192 {
                MAX_CHUNK_SIZE
            } else {
                kib * 1024
            },
            None => CHUNK_SIZE,
        },
        None => CHUNK_SIZE,
    }
}

/// The bound on the cached bytes of one file that the setting `raw` asks for.
pub fn configured_max_cache_size(raw: Option<&str>) -> (n: usize)
    ensures
        n == cache_size_for(opt_text(raw)),
        4_194_304 <= n <= 1_073_741_824,
        n % 1_048_576 == 0,
        raw is None ==> n == 10_485_760,
        raw matches Some(text) ==> match parsed_within(trim_white(text@), 10, usize::MAX as nat) {
            Some(mib) => {
                &&& mib == 0 ==> n == 10_485_760
                &&& 4 <= mib <= 1024 ==> n == mib * 1_048_576
                &&& 0 < mib < 4 ==> n == 4_194_304
                &&& mib > 1024 ==> n == 1_073_741_824
            },
            None => n == 10_485_760,
        },
{
    match raw {
        Some(text) => match parse_usize(trim(text)) {
            Some(mib) => if mib == 0 {
                MAX_CACHE_SIZE
            } else if mib < 4 {
                MIN_CACHE_SIZE
            } else if mib > 1024 {
                MAX_CACHE_SIZE_LIMIT
            } else {
                mib * 1_048_576
            },
            None => MAX_CACHE_SIZE,
        },
        None => MAX_CACHE_SIZE,
    }
}

/// A value with the moment it was made and the time it is good for.
#[derive(Debug)]
pub struct CachedEntry<T> {
    pub data: T,
    pub created_at: i64,
    pub ttl: u64,
}

impl<T> CachedEntry<T> {
    /// Too old at `now`.
    pub open spec fn expired_at(&self, now: int) -> bool {
        expired(self.created_at as int, self.ttl as int, now)
    }

    /// A value made now.
    pub fn new(data: T, ttl: u64, clock: &Clock) -> (e: Self)
        ensures
            e.data == data,
            e.ttl == ttl,
            e.created_at >= 0,
    {
        CachedEntry::new_at(data, ttl, clock.now())
    }

    /// A value made at `now`.
    pub fn new_at(data: T, ttl: u64, now: i64) -> (e: Self)
        ensures
            e.data == data,
            e.ttl == ttl,
            e.created_at == now,
    {
        CachedEntry { data, created_at: now, ttl }
    }

    /// Whether the value is too old by now.
    pub fn is_expired(&self, clock: &Clock) -> (r: bool)
        ensures
            exists|now: i64| now >= 0 && r == #[trigger] self.expired_at(now as int),
    {
        let now: i64 = clock.now();
        self.is_expired_at(now)
    }

    /// Whether the value is too old at `now`.
    pub fn is_expired_at(&self, now: i64) -> (r: bool)
        ensures
            r == self.expired_at(now as int),
            r <==> now - self.created_at > self.ttl,
    {
        has_expired(self.created_at, self.ttl, now)
    }
}

/// A chunk of a file's contents. `last_access` is a reading of the wall clock,
/// `created_at` one of the monotonic clock.
#[derive(Debug)]
pub struct CachedChunk {
    pub data: Vec<u8>,
    pub last_access: i64,
    pub created_at: i64,
}

/// The model of a cached chunk.
pub struct ChunkView {
    pub data: Seq<u8>,
    pub last_access: i64,
    pub created_at: i64,
}

impl View for CachedChunk {
    type V = ChunkView;

    open spec fn view(&self) -> ChunkView {
        ChunkView { data: self.data@, last_access: self.last_access, created_at: self.created_at }
    }
}

/// The chunk is too old at `now`.
pub open spec fn chunk_expired(c: ChunkView, now: int) -> bool {
    expired(c.created_at as int, DATA_CACHE_TTL as int, now)
}

impl CachedChunk {
    /// Whether the chunk is too old by now.
    pub fn is_expired(&self, clock: &Clock) -> (r: bool)
        ensures
            exists|now: i64| now >= 0 && r == #[trigger] chunk_expired(self@, now as int),
    {
        let now: i64 = clock.now();
        self.is_expired_at(now)
    }

    /// Whether the chunk is too old at `now`.
    pub fn is_expired_at(&self, now: i64) -> (r: bool)
        ensures
            r == chunk_expired(self@, now as int),
            r <==> now - self.created_at > 10_000_000_000,
    {
        has_expired(self.created_at, DATA_CACHE_TTL, now)
    }
}

/// The number of bytes in a collection of chunks.
pub open spec fn chunks_size(m: Map<u64, ChunkView>) -> nat
    decreases m.dom().len(),
    when m.dom().finite()
{
    if m.dom().len() == 0 {
        0
    } else {
        let k = m.dom().choose();
        m[k].data.len() + chunks_size(m.remove(k))
    }
}

/// Taking a chunk away takes its bytes away.
pub proof fn lemma_size_remove(m: Map<u64, ChunkView>, k: u64)
    requires
        m.dom().finite(),
        m.contains_key(k),
    ensures
        chunks_size(m) == m[k].data.len() + chunks_size(m.remove(k)),
    decreases m.dom().len(),
{
    let c = m.dom().choose();
    assert(m.dom().contains(k));
    if c != k {
        assert(m.remove(c).dom() =~= m.dom().remove(c));
        assert(m.remove(k).dom() =~= m.dom().remove(k));
        lemma_size_remove(m.remove(c), k);
        lemma_size_remove(m.remove(k), c);
        assert(m.remove(c).remove(k) =~= m.remove(k).remove(c));
    }
}

/// Adding a chunk where there was none adds its bytes.
pub proof fn lemma_size_insert(m: Map<u64, ChunkView>, k: u64, c: ChunkView)
    requires
        m.dom().finite(),
        !m.contains_key(k),
    ensures
        chunks_size(m.insert(k, c)) == c.data.len() + chunks_size(m),
{
    assert(m.insert(k, c).dom() =~= m.dom().insert(k));
    lemma_size_remove(m.insert(k, c), k);
    assert(m.insert(k, c).remove(k) =~= m);
}

/// The chunks that are not too old at `now`.
pub open spec fn live(m: Map<u64, ChunkView>, now: int) -> Map<u64, ChunkView> {
    m.restrict(Set::new(|k: u64| m.contains_key(k) && !chunk_expired(m[k], now)))
}

/// Every chunk of `part` is in `whole`.
pub open spec fn part_of(part: Map<u64, ChunkView>, whole: Map<u64, ChunkView>) -> bool {
    forall|k: u64| #[trigger] part.contains_key(k) ==> whole.contains_key(k) && part[k] == whole[k]
}

/// `after` is what is left of `before` once room is made for `len` more bytes
/// under the bound `max`: the least recently used chunks go, none of them while
/// there is room without that, and all of them if need be.
pub open spec fn evicted(
    before: Map<u64, ChunkView>,
    after: Map<u64, ChunkView>,
    len: nat,
    max: nat,
) -> bool {
    &&& part_of(after, before)
    &&& chunks_size(after) + len <= max || after.dom().is_empty()
    &&& forall|gone: u64, kept: u64|
        before.contains_key(gone) && !after.contains_key(gone) && after.contains_key(kept)
            ==> before[gone].last_access <= before[kept].last_access
    &&& after == before || exists|last: u64| #[trigger]
        evicted_last(before, after, last) && chunks_size(after) + before[last].data.len() + len
            > max
}

/// `last` went, and nothing that went was used more recently.
pub open spec fn evicted_last(
    before: Map<u64, ChunkView>,
    after: Map<u64, ChunkView>,
    last: u64,
) -> bool {
    &&& before.contains_key(last)
    &&& !after.contains_key(last)
    &&& forall|gone: u64|
        before.contains_key(gone) && !after.contains_key(gone) ==> before[gone].last_access
            <= before[last].last_access
}

/// The cached chunks of one file, by the offset at which they start.
#[derive(Debug)]
pub struct FileCache {
    pub chunks: HashMap<u64, CachedChunk>,
    pub total_size: usize,
}

impl View for FileCache {
    type V = Map<u64, ChunkView>;

    open spec fn view(&self) -> Map<u64, ChunkView> {
        self.chunks@.map_values(|c: CachedChunk| c@)
    }
}

impl FileCache {
    /// The recorded size is the number of bytes held.
    pub open spec fn wf(&self) -> bool {
        self.total_size == chunks_size(self@)
    }

    proof fn lemma_finite(&self)
        ensures
            self@.dom().finite(),
            self@.dom() == self.chunks@.dom(),
    {
        assert(self@.dom() =~= self.chunks@.dom());
    }

    /// A file of which nothing is cached.
    pub fn new() -> (f: Self)
        ensures
            f.wf(),
            f@ == Map::<u64, ChunkView>::empty(),
    {
        let f = FileCache { chunks: HashMap::new(), total_size: 0 };
        assert(f@ =~= Map::<u64, ChunkView>::empty());
        f
    }

    /// Takes the chunk at `offset` out.
    fn remove(&mut self, offset: u64) -> (r: Option<CachedChunk>)
        requires
            old(self).wf(),
        ensures
            final(self).wf(),
            final(self)@ == old(self)@.remove(offset),
            match r {
                Some(c) => old(self)@.contains_key(offset) && c@ == old(self)@[offset],
                None => !old(self)@.contains_key(offset),
            },
    {
        proof {
            self.lemma_finite();
        }
        match self.chunks.remove(&offset) {
            Some(c) => {
                proof {
                    lemma_size_remove(old(self)@, offset);
                }
                self.total_size = self.total_size - c.data.len();
                assert(self@ =~= old(self)@.remove(offset));
                Some(c)
            },
            None => {
                assert(self@ =~= old(self)@.remove(offset));
                assert(old(self)@.remove(offset) =~= old(self)@);
                None
            },
        }
    }

    /// Puts a chunk at `offset`, where there is none.
    fn put(&mut self, offset: u64, chunk: CachedChunk)
        requires
            old(self).wf(),
            !old(self)@.contains_key(offset),
            chunks_size(old(self)@) + chunk.data@.len() <= usize::MAX,
        ensures
            final(self).wf(),
            final(self)@ == old(self)@.insert(offset, chunk@),
    {
        proof {
            self.lemma_finite();
            lemma_size_insert(old(self)@, offset, chunk@);
        }
        self.total_size = self.total_size + chunk.data.len();
        self.chunks.insert(offset, chunk);
        assert(self@ =~= old(self)@.insert(offset, chunk@));
    }

    /// Whether nothing is cached.
    pub fn is_empty(&self) -> (r: bool)
        ensures
            r == self@.dom().is_empty(),
    {
        proof {
            self.lemma_finite();
        }
        self.chunks.len() == 0
    }

    /// Drops the chunks that are too old at `now`.
    fn drop_expired(&mut self, now: i64)
        requires
            old(self).wf(),
        ensures
            final(self).wf(),
            final(self)@ == live(old(self)@, now as int),
    {
        let mut offsets: Vec<u64> = Vec::new();
        let ghost before = self@;
        for entry in it: self.chunks.iter()
            invariant
                before == self@,
                forall|i: int|
                    0 <= i < offsets@.len() ==> before.contains_key(#[trigger] offsets@[i])
                        && chunk_expired(before[offsets@[i]], now as int),
                forall|i: int|
                    0 <= i < it.index() ==> (chunk_expired((*(#[trigger] it.seq()[i]).1)@, now as int)
                        ==> offsets@.contains(*it.seq()[i].0)),
                forall|i: int|
                    0 <= i < it.seq().len() ==> self.chunks@.contains_key(
                        *(#[trigger] it.seq()[i]).0,
                    ) && self.chunks@[*it.seq()[i].0] == *it.seq()[i].1,
                forall|k: u64| #[trigger]
                    self.chunks@.contains_key(k) ==> it.seq().contains((&k, &self.chunks@[k])),
        {
            let ghost held = offsets@;
            let (offset, chunk) = entry;
            if chunk.is_expired_at(now) {
                offsets.push(*offset);
                assert(offsets@.last() == *offset);
                assert forall|x: u64| held.contains(x) implies offsets@.contains(x) by {
                    let w = choose|w: int| 0 <= w < held.len() && held[w] == x;
                    assert(offsets@[w] == x);
                }
            }
        }
        assert forall|k: u64| before.contains_key(k) && chunk_expired(before[k], now as int) implies offsets@.contains(
            k,
        ) by {
            assert(self.chunks@.contains_key(k));
        }
        for i in 0..offsets.len()
            invariant
                self.wf(),
                forall|k: u64| #[trigger]
                    self@.contains_key(k) ==> before.contains_key(k) && self@[k] == before[k],
                forall|j: int| 0 <= j < i ==> !self@.contains_key(#[trigger] offsets@[j]),
                forall|k: u64| #[trigger]
                    before.contains_key(k) && !self@.contains_key(k) ==> chunk_expired(
                        before[k],
                        now as int,
                    ),
                forall|j: int|
                    0 <= j < offsets@.len() ==> before.contains_key(#[trigger] offsets@[j])
                        && chunk_expired(before[offsets@[j]], now as int),
        {
            let offset: u64 = offsets[i];
            self.remove(offset);
        }
        assert(self@ =~= live(before, now as int));
    }

    /// The offset of a chunk that was used least recently.
    fn oldest(&self) -> (r: Option<u64>)
        ensures
            match r {
                Some(k) => self@.contains_key(k) && forall|j: u64| #[trigger]
                    self@.contains_key(j) ==> self@[k].last_access <= self@[j].last_access,
                None => self@.dom().is_empty(),
            },
    {
        let mut found: Option<u64> = None;
        let mut access: i64 = 0;
        for entry in it: self.chunks.iter()
            invariant
                forall|i: int|
                    0 <= i < it.seq().len() ==> self.chunks@.contains_key(
                        *(#[trigger] it.seq()[i]).0,
                    ) && self.chunks@[*it.seq()[i].0] == *it.seq()[i].1,
                forall|k: u64| #[trigger]
                    self.chunks@.contains_key(k) ==> it.seq().contains((&k, &self.chunks@[k])),
                match found {
                    Some(k) => self@.contains_key(k) && self@[k].last_access == access && forall|
                        i: int,
                    |
                        0 <= i < it.index() ==> access <= (#[trigger] it.seq()[i]).1.last_access,
                    None => it.index() == 0,
                },
        {
            let (offset, chunk) = entry;
            let better = match found {
                Some(_) => chunk.last_access < access,
                None => true,
            };
            if better {
                found = Some(*offset);
                access = chunk.last_access;
            }
        }
        proof {
            match found {
                Some(k) => {
                    assert forall|j: u64| #[trigger] self@.contains_key(j) implies self@[k].last_access
                        <= self@[j].last_access by {
                        assert(self.chunks@.contains_key(j));
                    }
                },
                None => {
                    assert forall|j: u64| !self@.dom().contains(j) by {
                        if self@.dom().contains(j) {
                            assert(self.chunks@.contains_key(j));
                        }
                    }
                    assert(self@.dom() =~= Set::<u64>::empty());
                },
            }
        }
        found
    }

    /// Makes room for `len` more bytes under the bound `max`.
    fn evict(&mut self, len: usize, max: usize)
        requires
            old(self).wf(),
        ensures
            final(self).wf(),
            evicted(old(self)@, final(self)@, len as nat, max as nat),
    {
        let ghost before = self@;
        proof {
            self.lemma_finite();
        }
        while len > max || self.total_size > max - len
            invariant
                self.wf(),
                before.dom().finite(),
                part_of(self@, before),
                forall|gone: u64, kept: u64|
                    before.contains_key(gone) && !self@.contains_key(gone) && self@.contains_key(
                        kept,
                    ) ==> before[gone].last_access <= before[kept].last_access,
                self@ == before || exists|last: u64| #[trigger]
                    evicted_last(before, self@, last) && chunks_size(self@)
                        + before[last].data.len() + len > max,
            ensures
                chunks_size(self@) + len <= max || self@.dom().is_empty(),
            decreases self@.dom().len(),
        {
            let ghost held = self@;
            match self.oldest() {
                Some(k) => {
                    proof {
                        self.lemma_finite();
                        lemma_size_remove(held, k);
                    }
                    self.remove(k);
                    assert(self@.dom() =~= held.dom().remove(k));
                    assert forall|j: u64| #[trigger] self@.contains_key(j) implies before.contains_key(
                        j,
                    ) && self@[j] == before[j] && before[k].last_access <= before[j].last_access by {
                        assert(held.contains_key(j));
                    }
                    assert(before[k] == held[k]);
                    assert(evicted_last(before, self@, k));
                },
                None => {
                    break;
                },
            }
        }
    }
}

/// A directory listing with the moment it was fetched.
#[derive(Debug)]
pub struct DirectoryCache {
    pub entries: CachedEntry<Vec<FileEntry>>,
}

/// The model of a cached listing.
pub struct ListingView {
    pub entries: Seq<FileEntry>,
    pub created_at: i64,
    pub ttl: u64,
}

impl View for DirectoryCache {
    type V = ListingView;

    open spec fn view(&self) -> ListingView {
        ListingView {
            entries: self.entries.data@,
            created_at: self.entries.created_at,
            ttl: self.entries.ttl,
        }
    }
}

/// The listing is too old at `now`.
pub open spec fn listing_expired(l: ListingView, now: int) -> bool {
    expired(l.created_at as int, l.ttl as int, now)
}

/// The listing of `path` that is good at `now`.
pub open spec fn good_listing(
    dirs: Map<Seq<char>, ListingView>,
    path: Seq<char>,
    now: int,
) -> Option<Seq<FileEntry>> {
    if dirs.contains_key(path) && !listing_expired(dirs[path], now) {
        Some(dirs[path].entries)
    } else {
        None
    }
}

/// What asking for the listing of `path` at `now` gives, `fetched` being what
/// fetching it gave, if it was fetched, and what becomes of the listings.
pub open spec fn listed(
    dirs: Map<Seq<char>, ListingView>,
    path: Seq<char>,
    fetched: Option<Result<Vec<FileEntry>, ApiError>>,
    now: i64,
    r: Option<Result<Vec<FileEntry>, ApiError>>,
    after: Map<Seq<char>, ListingView>,
) -> bool {
    match good_listing(dirs, path, now as int) {
        Some(held) => (r matches Some(Ok(entries)) && entries@ == held) && after == dirs,
        None => match fetched {
            Some(Ok(new)) => (r matches Some(Ok(entries)) && entries@ == new@) && after
                == dirs.insert(
                path,
                ListingView { entries: new@, created_at: now, ttl: DIRECTORY_CACHE_TTL },
            ),
            _ => r == fetched && after == dirs.remove(path),
        },
    }
}

/// The start of the chunk that `offset` lies in.
pub open spec fn chunk_start(offset: int, chunk_size: int) -> int {
    offset - offset % chunk_size
}

/// The chunk of `path` at `start` that is good at `now`.
pub open spec fn good_chunk(
    files: Map<Seq<char>, Map<u64, ChunkView>>,
    path: Seq<char>,
    start: u64,
    now: int,
) -> Option<ChunkView> {
    if files.contains_key(path) && files[path].contains_key(start) && !chunk_expired(
        files[path][start],
        now,
    ) {
        Some(files[path][start])
    } else {
        None
    }
}

/// The cached chunks once the chunk of `path` at `start` was looked for at `t`:
/// one that is good was used at that moment, one that is too old goes.
pub open spec fn looked_up(
    files: Map<Seq<char>, Map<u64, ChunkView>>,
    path: Seq<char>,
    start: u64,
    t: Reading,
) -> Map<Seq<char>, Map<u64, ChunkView>> {
    if !files.contains_key(path) || !files[path].contains_key(start) {
        files
    } else if chunk_expired(files[path][start], t.instant as int) {
        files.insert(path, files[path].remove(start))
    } else {
        files.insert(
            path,
            files[path].insert(start, ChunkView { last_access: t.wall, ..files[path][start] }),
        )
    }
}

/// What looking at `t` for the bytes of `path` from `offset` on gives, up to
/// `size` of them and not beyond the chunk that `offset` lies in, and what
/// becomes of the chunks.
pub open spec fn read_out(
    files: Map<Seq<char>, Map<u64, ChunkView>>,
    path: Seq<char>,
    chunk_size: int,
    offset: int,
    size: int,
    t: Reading,
    r: Option<Vec<u8>>,
    after: Map<Seq<char>, Map<u64, ChunkView>>,
) -> bool {
    let start = chunk_start(offset, chunk_size);
    &&& after == looked_up(files, path, start as u64, t)
    &&& match good_chunk(files, path, start as u64, t.instant as int) {
        Some(c) => r matches Some(bytes) && bytes@ == slice(c.data, offset - start, size),
        None => r is None,
    }
}

/// The chunks of `path`: none where nothing of it is cached.
pub open spec fn chunks_of(
    files: Map<Seq<char>, Map<u64, ChunkView>>,
    path: Seq<char>,
) -> Map<u64, ChunkView> {
    if files.contains_key(path) {
        files[path]
    } else {
        Map::empty()
    }
}

/// `after` is `before` once the chunk `data` of `path` was stored at `t`: the
/// file's chunks that were too old are gone, room was made, and the chunk
/// stands at `offset`. The chunks of other files are as they were.
pub open spec fn stored(
    before: Map<Seq<char>, Map<u64, ChunkView>>,
    after: Map<Seq<char>, Map<u64, ChunkView>>,
    path: Seq<char>,
    offset: u64,
    data: Seq<u8>,
    max: nat,
    t: Reading,
) -> bool {
    exists|kept: Map<u64, ChunkView>|
        #![trigger evicted(live(chunks_of(before, path), t.instant as int), kept, data.len(), max)]
        evicted(live(chunks_of(before, path), t.instant as int), kept, data.len(), max) && after
            == before.insert(
            path,
            kept.insert(
                offset,
                ChunkView { data, last_access: t.wall, created_at: t.instant },
            ),
        )
}

/// The directory whose listing shows the entry at `path`.
pub open spec fn parent_listing(path: Seq<char>) -> Option<Seq<char>> {
    match last_position(path, '/') {
        Some(i) => Some(
            if i == 0 {
                "/"@
            } else {
                path.take(i)
            },
        ),
        None => None,
    }
}

/// The listings without that of `path` and that of the directory above it.
pub open spec fn listings_without(
    dirs: Map<Seq<char>, ListingView>,
    path: Seq<char>,
) -> Map<Seq<char>, ListingView> {
    match parent_listing(path) {
        Some(parent) => dirs.remove(path).remove(parent),
        None => dirs.remove(path),
    }
}

/// The listings that are good at `now`.
pub open spec fn live_listings(
    dirs: Map<Seq<char>, ListingView>,
    now: int,
) -> Map<Seq<char>, ListingView> {
    dirs.restrict(Set::new(|p: Seq<char>| dirs.contains_key(p) && !listing_expired(dirs[p], now)))
}

/// The chunks that are good at `now`, for the files that have any.
pub open spec fn live_files(
    files: Map<Seq<char>, Map<u64, ChunkView>>,
    now: int,
) -> Map<Seq<char>, Map<u64, ChunkView>> {
    Map::new(
        |p: Seq<char>| files.contains_key(p) && !live(files[p], now).dom().is_empty(),
        |p: Seq<char>| live(files[p], now),
    )
}

/// The caches, their settings and the clock they are kept by.
pub struct CacheManager {
    pub file_cache: PathTable<FileCache>,
    pub directory_cache: PathTable<DirectoryCache>,
    pub chunk_size: u32,
    pub max_cache_size: usize,
    pub clock: Clock,
}

impl CacheManager {
    /// The recorded sizes are right, and the chunk size is positive.
    pub open spec fn wf(&self) -> bool {
        &&& self.file_cache.wf()
        &&& self.directory_cache.wf()
        &&& self.chunk_size > 0
        &&& forall|p: Seq<char>| #[trigger]
            self.file_cache@.contains_key(p) ==> self.file_cache@[p].wf()
    }

    /// The cached chunks of each file.
    pub open spec fn files(&self) -> Map<Seq<char>, Map<u64, ChunkView>> {
        self.file_cache@.map_values(|f: FileCache| f@)
    }

    /// The cached listings.
    pub open spec fn dirs(&self) -> Map<Seq<char>, ListingView> {
        self.directory_cache@.map_values(|d: DirectoryCache| d@)
    }

    /// The settings and the clock are those of `other`.
    pub open spec fn same_settings(&self, other: &Self) -> bool {
        &&& self.chunk_size == other.chunk_size
        &&& self.max_cache_size == other.max_cache_size
        &&& self.clock == other.clock
    }

    /// Empty caches with the settings that the two texts ask for: the chunk
    /// size in kibibytes, and the bound on one file's cached bytes in mebibytes.
    pub fn new(chunk_size_kb: Option<&str>, cache_size_mb: Option<&str>) -> (m: Self)
        ensures
            m.wf(),
            m.files() == Map::<Seq<char>, Map<u64, ChunkView>>::empty(),
            m.dirs() == Map::<Seq<char>, ListingView>::empty(),
            m.chunk_size == chunk_size_for(opt_text(chunk_size_kb)),
            m.max_cache_size == cache_size_for(opt_text(cache_size_mb)),
    {
        let m = CacheManager {
            file_cache: PathTable::new(),
            directory_cache: PathTable::new(),
            chunk_size: configured_chunk_size(chunk_size_kb),
            max_cache_size: configured_max_cache_size(cache_size_mb),
            clock: Clock::start(),
        };
        assert(m.files() =~= Map::<Seq<char>, Map<u64, ChunkView>>::empty());
        assert(m.dirs() =~= Map::<Seq<char>, ListingView>::empty());
        m
    }

    /// The listing of `path`, where one is cached that is good at `now`. One
    /// that is too old goes.
    pub fn get_cached_directory_at(&mut self, path: &str, now: i64) -> (r: Option<Vec<FileEntry>>)
        requires
            old(self).wf(),
        ensures
            final(self).wf(),
            final(self).same_settings(old(self)),
            final(self).files() == old(self).files(),
            match r {
                Some(entries) => good_listing(old(self).dirs(), path@, now as int) == Some(entries@)
                    && final(self).dirs() == old(self).dirs(),
                None => good_listing(old(self).dirs(), path@, now as int) is None && final(self).dirs() == old(self).dirs().remove(path@),
            },
            r is Some <==> old(self).dirs().contains_key(path@) && now - old(self).dirs()[path@].created_at
                <= old(self).dirs()[path@].ttl,
            r matches Some(entries) ==> entries@.len() == old(self).dirs()[path@].entries.len() && forall|
                i: int,
            |
                0 <= i < entries@.len() ==> #[trigger] entries@[i] == old(self).dirs()[path@].entries[i],
            final(self).dirs().contains_key(path@) <==> r is Some,
            forall|p: Seq<char>|
                p != path@ ==> (#[trigger] final(self).dirs().contains_key(p) <==> old(self).dirs().contains_key(p)),
            forall|p: Seq<char>| #[trigger]
                final(self).dirs().contains_key(p) ==> final(self).dirs()[p] == old(self).dirs()[p],
    {
        if let Some(cached) = self.directory_cache.get(path) {
            if !cached.entries.is_expired_at(now) {
                return Some(copy_entries(&cached.entries.data));
            }
        }
        self.directory_cache.remove(path);
        assert(self.dirs() =~= old(self).dirs().remove(path@));
        None
    }

    /// The listing of `path`, where one is cached that is good by now.
    pub fn get_cached_directory(&mut self, path: &str) -> (r: Option<Vec<FileEntry>>)
        requires
            old(self).wf(),
        ensures
            final(self).wf(),
            final(self).same_settings(old(self)),
            final(self).files() == old(self).files(),
            exists|now: i64|
                #![trigger good_listing(old(self).dirs(), path@, now as int)]
                now >= 0 && match r {
                    Some(entries) => good_listing(old(self).dirs(), path@, now as int) == Some(
                        entries@,
                    ) && final(self).dirs() == old(self).dirs(),
                    None => good_listing(old(self).dirs(), path@, now as int) is None && final(self).dirs() == old(self).dirs().remove(path@),
                },
    {
        let now: i64 = self.clock.now();
        self.get_cached_directory_at(path, now)
    }

    /// Stores a listing that was fetched at `now`.
    pub fn store_directory_listing_at(&mut self, path: &str, entries: Vec<FileEntry>, now: i64)
        requires
            old(self).wf(),
        ensures
            final(self).wf(),
            final(self).same_settings(old(self)),
            final(self).files() == old(self).files(),
            final(self).dirs() == old(self).dirs().insert(
                path@,
                (ListingView { entries: entries@, created_at: now, ttl: DIRECTORY_CACHE_TTL }),
            ),
            final(self).dirs().contains_key(path@),
            final(self).dirs()[path@].entries == entries@,
            final(self).dirs()[path@].created_at == now,
            final(self).dirs()[path@].ttl == 3_000_000_000,
            forall|p: Seq<char>|
                p != path@ ==> (#[trigger] final(self).dirs().contains_key(p) <==> old(self).dirs().contains_key(p)),
            forall|p: Seq<char>|
                p != path@ && #[trigger] final(self).dirs().contains_key(p) ==> final(self).dirs()[p]
                    == old(self).dirs()[p],
    {
        let listing = DirectoryCache {
            entries: CachedEntry::new_at(entries, DIRECTORY_CACHE_TTL, now),
        };
        self.directory_cache.insert(owned(path), listing);
        assert(self.dirs() =~= old(self).dirs().insert(path@, listing@));
    }

    /// Stores a listing that was fetched now.
    pub fn store_directory_listing(&mut self, path: &str, entries: Vec<FileEntry>)
        requires
            old(self).wf(),
        ensures
            final(self).wf(),
            final(self).same_settings(old(self)),
            final(self).files() == old(self).files(),
            exists|now: i64|
                now >= 0 && final(self).dirs() == #[trigger] old(self).dirs().insert(
                    path@,
                    (ListingView { entries: entries@, created_at: now, ttl: DIRECTORY_CACHE_TTL }),
                ),
    {
        let now: i64 = self.clock.now();
        self.store_directory_listing_at(path, entries, now);
    }

    /// The listing of `path` at `now`: the cached one where it is good, and
    /// otherwise what fetching it gave, which is then kept. `None` asks for the
    /// listing to be fetched.
    pub fn list_directory_cached_at(
        &mut self,
        path: &str,
        fetched: Option<Result<Vec<FileEntry>, ApiError>>,
        now: i64,
    ) -> (r: Option<Result<Vec<FileEntry>, ApiError>>)
        requires
            old(self).wf(),
        ensures
            final(self).wf(),
            final(self).same_settings(old(self)),
            final(self).files() == old(self).files(),
            listed(
                old(self).dirs(),
                path@,
                fetched,
                now,
                r,
                final(self).dirs(),
            ),
            old(self).dirs().contains_key(path@) && now - old(self).dirs()[path@].created_at <= old(self).dirs()[path@].ttl ==> (r matches Some(Ok(entries)) && entries@ == old(self).dirs()[path@].entries),
            !(old(self).dirs().contains_key(path@) && now - old(self).dirs()[path@].created_at <= old(self).dirs()[path@].ttl) ==> match fetched {
                Some(Ok(new)) => (r matches Some(Ok(entries)) && entries@ == new@) && final(self).dirs().contains_key(path@) && final(self).dirs()[path@].entries == new@ && final(self).dirs()[path@].created_at == now && final(self).dirs()[path@].ttl == 3_000_000_000,
                _ => r == fetched && !final(self).dirs().contains_key(path@),
            },
    {
        if let Some(entries) = self.get_cached_directory_at(path, now) {
            return Some(Ok(entries));
        }
        match fetched {
            Some(Ok(entries)) => {
                let kept = copy_entries(&entries);
                let ghost removed = self.dirs();
                self.store_directory_listing_at(path, kept, now);
                let ghost listing = ListingView {
                    entries: entries@,
                    created_at: now,
                    ttl: DIRECTORY_CACHE_TTL,
                };
                assert(removed.insert(path@, listing) =~= old(self).dirs().insert(path@, listing));
                Some(Ok(entries))
            },
            Some(Err(e)) => Some(Err(e)),
            None => None,
        }
    }

    /// The listing of `path` by now: the cached one where it is good, and
    /// otherwise what fetching it gave. `None` asks for the listing to be
    /// fetched.
    pub fn list_directory_cached(
        &mut self,
        path: &str,
        fetched: Option<Result<Vec<FileEntry>, ApiError>>,
    ) -> (r: Option<Result<Vec<FileEntry>, ApiError>>)
        requires
            old(self).wf(),
        ensures
            final(self).wf(),
            final(self).same_settings(old(self)),
            final(self).files() == old(self).files(),
            exists|now: i64|
                now >= 0 && #[trigger] listed(
                    old(self).dirs(),
                    path@,
                    fetched,
                    now,
                    r,
                    final(self).dirs(),
                ),
    {
        let now: i64 = self.clock.now();
        self.list_directory_cached_at(path, fetched, now)
    }

    /// Forgets the listing of `path` and that of the directory above it.
    pub fn invalidate_directory_cache(&mut self, path: &str)
        requires
            old(self).wf(),
        ensures
            final(self).wf(),
            final(self).same_settings(old(self)),
            final(self).files() == old(self).files(),
            final(self).dirs() == listings_without(old(self).dirs(), path@),
            !final(self).dirs().contains_key(path@),
            last_position(path@, '/') matches Some(i) ==> !final(self).dirs().contains_key(
                if i == 0 {
                    "/"@
                } else {
                    path@.take(i)
                },
            ),
            forall|p: Seq<char>| #[trigger]
                final(self).dirs().contains_key(p) ==> old(self).dirs().contains_key(p)
                    && final(self).dirs()[p] == old(self).dirs()[p],
    {
        self.directory_cache.remove(path);
        assert(self.dirs() =~= old(self).dirs().remove(path@));
        if let Some(i) = find_last(path, '/') {
            let ghost middle = self.dirs();
            if i == 0 {
                self.directory_cache.remove("/");
                assert(self.dirs() =~= middle.remove("/"@));
            } else {
                proof {
                    crate::paths::lemma_last_position(path@, '/');
                }
                let parent = path.substring_char(0, i);
                assert(parent@ =~= path@.take(i as int));
                self.directory_cache.remove(parent);
                assert(self.dirs() =~= middle.remove(path@.take(i as int)));
            }
        }
    }

    /// The cached bytes of `path` from `offset` on, up to `size` of them and not
    /// beyond the chunk that `offset` lies in, where that chunk is cached and
    /// good at `t`.
    pub fn read_from_cache_at(&mut self, path: &str, offset: u64, size: u32, t: Reading) -> (r:
        Option<Vec<u8>>)
        requires
            old(self).wf(),
        ensures
            final(self).wf(),
            final(self).same_settings(old(self)),
            final(self).dirs() == old(self).dirs(),
            read_out(
                old(self).files(),
                path@,
                old(self).chunk_size as int,
                offset as int,
                size as int,
                t,
                r,
                final(self).files(),
            ),
            r is Some <==> {
                let start = (offset - offset as int % old(self).chunk_size as int) as u64;
                &&& old(self).files().contains_key(path@)
                &&& old(self).files()[path@].contains_key(start)
                &&& t.instant - old(self).files()[path@][start].created_at <= 10_000_000_000
            },
            r matches Some(bytes) ==> {
                let within = offset as int % old(self).chunk_size as int;
                let held = old(self).files()[path@][(offset - within) as u64].data;
                &&& bytes@.len() <= size
                &&& forall|i: int|
                    0 <= i < bytes@.len() ==> within + i < held.len() && #[trigger] bytes@[i] == held[within
                        + i]
                &&& bytes@.len() < size ==> within + bytes@.len() >= held.len()
            },
    {
        proof {
            vstd::arithmetic::div_mod::lemma_mod_bound(offset as int, self.chunk_size as int);
            assert(offset as int % self.chunk_size as int <= offset) by {
                vstd::arithmetic::div_mod::lemma_mod_decreases(
                    offset as nat,
                    self.chunk_size as nat,
                );
            }
        }
        let start: u64 = offset - offset % (self.chunk_size as u64);
        let ghost before = self.files();
        if !self.file_cache.contains_key(path) {
            return None;
        }
        let mut result: Option<Vec<u8>> = None;
        if let Some(mut file) = self.file_cache.remove(path) {
            let ghost held = file@;
            if let Some(mut chunk) = file.remove(start) {
                if !chunk.is_expired_at(t.instant) {
                    result = Some(slice_of(&chunk.data, offset - start, size as u64));
                    chunk.last_access = t.wall;
                    proof {
                        file.lemma_finite();
                        lemma_size_remove(held, start);
                    }
                    file.put(start, chunk);
                    assert(file@ =~= held.insert(
                        start,
                        ChunkView { last_access: t.wall, ..held[start] },
                    ));
                }
            } else {
                assert(file@ =~= held);
            }
            let ghost file_view = file@;
            self.file_cache.insert(owned(path), file);
            assert(self.files() =~= before.insert(path@, file_view));
            assert(self.files() =~= looked_up(before, path@, start, t));
        }
        result
    }

    /// The cached bytes of `path` from `offset` on, where the chunk that
    /// `offset` lies in is cached and good by now.
    pub fn read_from_cache(&mut self, path: &str, offset: u64, size: u32) -> (r: Option<Vec<u8>>)
        requires
            old(self).wf(),
        ensures
            final(self).wf(),
            final(self).same_settings(old(self)),
            final(self).dirs() == old(self).dirs(),
            exists|t: Reading|
                t.instant >= 0 && #[trigger] read_out(
                    old(self).files(),
                    path@,
                    old(self).chunk_size as int,
                    offset as int,
                    size as int,
                    t,
                    r,
                    final(self).files(),
                ),
    {
        let t = self.clock.read();
        self.read_from_cache_at(path, offset, size, t)
    }

    /// Stores a chunk of `path` that was fetched at `t`. The file's chunks that
    /// are too old go first, then as many of the least recently used ones as it
    /// takes to make room.
    pub fn store_chunk_at(&mut self, path: &str, offset: u64, data: Vec<u8>, t: Reading)
        requires
            old(self).wf(),
        ensures
            final(self).wf(),
            final(self).same_settings(old(self)),
            final(self).dirs() == old(self).dirs(),
            stored(
                old(self).files(),
                final(self).files(),
                path@,
                offset,
                data@,
                old(self).max_cache_size as nat,
                t,
            ),
            final(self).files().contains_key(path@),
            final(self).files()[path@].contains_key(offset),
            final(self).files()[path@][offset].data == data@,
            final(self).files()[path@][offset].created_at == t.instant,
            final(self).files()[path@][offset].last_access == t.wall,
            forall|p: Seq<char>|
                p != path@ ==> (#[trigger] final(self).files().contains_key(p) <==> old(self).files().contains_key(p)),
            forall|p: Seq<char>|
                p != path@ && #[trigger] final(self).files().contains_key(p) ==> final(self).files()[p]
                    == old(self).files()[p],
            forall|k: u64|
                k != offset && #[trigger] final(self).files()[path@].contains_key(k) ==> chunks_of(
                    old(self).files(),
                    path@,
                ).contains_key(k) && final(self).files()[path@][k] == chunks_of(old(self).files(), path@)[k]
                    && t.instant - final(self).files()[path@][k].created_at <= 10_000_000_000,
    {
        let ghost before = self.files();
        let mut file = match self.file_cache.remove(path) {
            Some(f) => f,
            None => FileCache::new(),
        };
        assert(file@ =~= chunks_of(before, path@));
        file.drop_expired(t.instant);
        let len: usize = data.len();
        file.evict(len, self.max_cache_size);
        let ghost kept = file@;
        file.remove(offset);
        proof {
            file.lemma_finite();
            if kept.contains_key(offset) {
                assert(kept.remove(offset).insert(offset, kept[offset]) =~= kept);
                lemma_size_insert(kept.remove(offset), offset, kept[offset]);
            } else {
                assert(kept.remove(offset) =~= kept);
            }
            if kept.dom().is_empty() {
                assert(kept.remove(offset).dom() =~= Set::<u64>::empty());
            }
        }
        let chunk = CachedChunk { data, last_access: t.wall, created_at: t.instant };
        let ghost stored_chunk = chunk@;
        file.put(offset, chunk);
        assert(file@ =~= kept.insert(offset, stored_chunk));
        self.file_cache.insert(owned(path), file);
        assert(self.files() =~= before.insert(path@, kept.insert(offset, stored_chunk)));
    }

    /// Stores a chunk of `path` that was fetched now.
    pub fn store_file_chunk(&mut self, path: &str, offset: u64, data: Vec<u8>)
        requires
            old(self).wf(),
        ensures
            final(self).wf(),
            final(self).same_settings(old(self)),
            final(self).dirs() == old(self).dirs(),
            exists|t: Reading|
                t.instant >= 0 && #[trigger] stored(
                    old(self).files(),
                    final(self).files(),
                    path@,
                    offset,
                    data@,
                    old(self).max_cache_size as nat,
                    t,
                ),
    {
        let t = self.clock.read();
        self.store_chunk_at(path, offset, data, t);
    }

    /// Forgets the chunks of `path`.
    pub fn invalidate_file_cache(&mut self, path: &str)
        requires
            old(self).wf(),
        ensures
            final(self).wf(),
            final(self).same_settings(old(self)),
            final(self).dirs() == old(self).dirs(),
            final(self).files() == old(self).files().remove(path@),
    {
        self.file_cache.remove(path);
        assert(self.files() =~= old(self).files().remove(path@));
    }

    /// Forgets the chunks of `path`, its listing, and that of the directory
    /// above it.
    pub fn invalidate_all_for_path(&mut self, path: &str)
        requires
            old(self).wf(),
        ensures
            final(self).wf(),
            final(self).same_settings(old(self)),
            final(self).files() == old(self).files().remove(path@),
            final(self).dirs() == listings_without(old(self).dirs(), path@),
    {
        self.invalidate_file_cache(path);
        self.invalidate_directory_cache(path);
    }

    /// Drops the listings that are too old at `now`.
    fn cleanup_directories(&mut self, now: i64)
        requires
            old(self).wf(),
        ensures
            final(self).wf(),
            final(self).same_settings(old(self)),
            final(self).files() == old(self).files(),
            final(self).dirs() == live_listings(old(self).dirs(), now as int),
    {
        let mut kept: PathTable<DirectoryCache> = PathTable::new();
        let ghost all = self.directory_cache@;
        let ghost entry = *self;
        while self.directory_cache.len() > 0
            invariant
                self.wf(),
                self.same_settings(&entry),
                self.file_cache == entry.file_cache,
                kept.wf(),
                forall|p: Seq<char>| #[trigger]
                    self.directory_cache@.contains_key(p) ==> all.contains_key(p)
                        && self.directory_cache@[p] == all[p],
                forall|p: Seq<char>|
                    #![trigger kept@.contains_key(p)]
                    #![trigger all.contains_key(p)]
                    kept@.contains_key(p) <==> all.contains_key(p)
                        && !self.directory_cache@.contains_key(p) && !listing_expired(
                        all[p]@,
                        now as int,
                    ),
                forall|p: Seq<char>| #[trigger]
                    kept@.contains_key(p) ==> kept@[p] == all[p],
            decreases self.directory_cache.keys().len(),
        {
            proof {
                self.directory_cache.lemma_keys();
            }
            let last: usize = self.directory_cache.len() - 1;
            let path = self.directory_cache.key_at(last).clone();
            let listing = self.directory_cache.remove_at(last);
            if !listing.entries.is_expired_at(now) {
                kept.insert(path, listing);
            }
        }
        proof {
            self.directory_cache.lemma_keys();
            assert forall|p: Seq<char>| !self.directory_cache@.contains_key(p) by {
                if self.directory_cache@.contains_key(p) {
                    assert(self.directory_cache.keys().contains(p));
                }
            }
        }
        self.directory_cache = kept;
        assert(self.dirs() =~= live_listings(old(self).dirs(), now as int));
        assert(self.files() =~= old(self).files());
    }

    /// Drops the chunks that are too old at `now`, and the files left without
    /// any.
    fn cleanup_files(&mut self, now: i64)
        requires
            old(self).wf(),
        ensures
            final(self).wf(),
            final(self).same_settings(old(self)),
            final(self).dirs() == old(self).dirs(),
            final(self).files() == live_files(old(self).files(), now as int),
    {
        let mut kept: PathTable<FileCache> = PathTable::new();
        let ghost all = self.file_cache@;
        let ghost entry = *self;
        while self.file_cache.len() > 0
            invariant
                self.wf(),
                self.same_settings(&entry),
                self.directory_cache == entry.directory_cache,
                kept.wf(),
                forall|p: Seq<char>| #[trigger]
                    self.file_cache@.contains_key(p) ==> all.contains_key(p)
                        && self.file_cache@[p] == all[p],
                forall|p: Seq<char>|
                    #![trigger kept@.contains_key(p)]
                    #![trigger all.contains_key(p)]
                    kept@.contains_key(p) <==> all.contains_key(p)
                        && !self.file_cache@.contains_key(p) && !live(
                        all[p]@,
                        now as int,
                    ).dom().is_empty(),
                forall|p: Seq<char>| #[trigger]
                    kept@.contains_key(p) ==> kept@[p].wf() && kept@[p]@ == live(
                        all[p]@,
                        now as int,
                    ),
            decreases self.file_cache.keys().len(),
        {
            proof {
                self.file_cache.lemma_keys();
            }
            let last: usize = self.file_cache.len() - 1;
            let path = self.file_cache.key_at(last).clone();
            let mut file = self.file_cache.remove_at(last);
            file.drop_expired(now);
            if !file.is_empty() {
                kept.insert(path, file);
            }
        }
        proof {
            self.file_cache.lemma_keys();
            assert forall|p: Seq<char>| !self.file_cache@.contains_key(p) by {
                if self.file_cache@.contains_key(p) {
                    assert(self.file_cache.keys().contains(p));
                }
            }
        }
        self.file_cache = kept;
        assert(self.files() =~= live_files(old(self).files(), now as int));
        assert(self.dirs() =~= old(self).dirs());
    }

    /// Drops what is too old at `now`.
    pub fn cleanup_expired_at(&mut self, now: i64)
        requires
            old(self).wf(),
        ensures
            final(self).wf(),
            final(self).same_settings(old(self)),
            final(self).dirs() == live_listings(old(self).dirs(), now as int),
            final(self).files() == live_files(old(self).files(), now as int),
    {
        self.cleanup_directories(now);
        self.cleanup_files(now);
    }

    /// Drops what is too old by now.
    pub fn cleanup_expired(&mut self)
        requires
            old(self).wf(),
        ensures
            final(self).wf(),
            final(self).same_settings(old(self)),
            exists|now: i64|
                now >= 0 && final(self).dirs() == #[trigger] live_listings(old(self).dirs(), now as int)
                    && final(self).files() == live_files(old(self).files(), now as int),
    {
        let now: i64 = self.clock.now();
        self.cleanup_expired_at(now);
    }

    /// Forgets everything.
    pub fn clear(&mut self)
        requires
            old(self).wf(),
        ensures
            final(self).wf(),
            final(self).same_settings(old(self)),
            final(self).files() == Map::<Seq<char>, Map<u64, ChunkView>>::empty(),
            final(self).dirs() == Map::<Seq<char>, ListingView>::empty(),
    {
        self.file_cache.clear();
        self.directory_cache.clear();
        assert(self.files() =~= Map::<Seq<char>, Map<u64, ChunkView>>::empty());
        assert(self.dirs() =~= Map::<Seq<char>, ListingView>::empty());
    }
}

/// A listing that was stored is the one that is found until it is too old.
pub proof fn law_listing_kept(
    dirs: Map<Seq<char>, ListingView>,
    path: Seq<char>,
    entries: Seq<FileEntry>,
    created_at: i64,
    now: int,
)
    requires
        now - created_at <= DIRECTORY_CACHE_TTL,
    ensures
        good_listing(
            dirs.insert(
                path,
                ListingView { entries, created_at, ttl: DIRECTORY_CACHE_TTL },
            ),
            path,
            now,
        ) == Some(entries),
{
}

/// After an entry was invalidated, neither its own listing is found nor that of
/// the directory which shows it; all others are as they were.
pub proof fn law_listing_invalidated(
    dirs: Map<Seq<char>, ListingView>,
    path: Seq<char>,
    other: Seq<char>,
    now: int,
)
    ensures
        good_listing(listings_without(dirs, path), path, now) is None,
        parent_listing(path) matches Some(parent) ==> good_listing(
            listings_without(dirs, path),
            parent,
            now,
        ) is None,
        other != path && parent_listing(path) != Some(other) ==> good_listing(
            listings_without(dirs, path),
            other,
            now,
        ) == good_listing(dirs, other, now),
{
}

/// A setting that is brought into range lies in it, changes by no more than it has
/// to, and keeps its order with others.
pub proof fn law_clamped(n: nat, m: nat, low: nat, high: nat)
    requires
        low <= high,
    ensures
        low <= clamped(n, low, high) <= high,
        low <= n <= high ==> clamped(n, low, high) == n,
        n <= m ==> clamped(n, low, high) <= clamped(m, low, high),
        n <= low ==> clamped(n, low, high) == low,
        n >= high ==> clamped(n, low, high) == high,
{
}

/// The chunk size is a whole number of kibibytes between 64 and 8192; a setting
/// in that range is taken as it is, and one without meaning stands for 1024.
pub proof fn law_chunk_size(raw: Option<Seq<char>>)
    ensures
        65_536 <= chunk_size_for(raw) <= 8_388_608,
        chunk_size_for(raw) % 1024 == 0,
        chunk_size_for(None) == 1024 * 1024,
        raw matches Some(text) ==> (parsed_within(trim_white(text), 10, u32::MAX as nat)
            matches Some(kib) ==> (64 <= kib <= 8192 ==> chunk_size_for(raw) == 1024 * kib)),
        raw matches Some(text) ==> (parsed_within(trim_white(text), 10, u32::MAX as nat) is None
            ==> chunk_size_for(raw) == chunk_size_for(None)),
{
}

/// The bound on one file's cached bytes is a whole number of mebibytes between 4
/// and 1024; a setting in that range is taken as it is, and one without meaning
/// stands for 10.
pub proof fn law_cache_size(raw: Option<Seq<char>>)
    ensures
        4 * 1_048_576 <= cache_size_for(raw) <= 1024 * 1_048_576,
        cache_size_for(raw) % 1_048_576 == 0,
        cache_size_for(None) == 10 * 1_048_576,
        raw matches Some(text) ==> (parsed_within(trim_white(text), 10, usize::MAX as nat)
            matches Some(mib) ==> (4 <= mib <= 1024 ==> cache_size_for(raw) == 1_048_576 * mib)),
        raw matches Some(text) ==> (parsed_within(trim_white(text), 10, usize::MAX as nat) is None
            ==> cache_size_for(raw) == cache_size_for(None)),
{
}

/// Chunks are good for ten seconds from their making, and no longer; of the chunks
/// of a file those remain that are good, as they were.
pub proof fn law_live(m: Map<u64, ChunkView>, now: int, k: u64)
    ensures
        live(m, now).contains_key(k) <==> m.contains_key(k) && now - m[k].created_at
            <= 10_000_000_000,
        live(m, now).contains_key(k) ==> live(m, now)[k] == m[k],
{
}

/// Cleaning up leaves the chunks that are good, of every file that has one, and the
/// listings that are good, and nothing else.
pub proof fn law_cleaned(
    files: Map<Seq<char>, Map<u64, ChunkView>>,
    dirs: Map<Seq<char>, ListingView>,
    now: int,
    path: Seq<char>,
    k: u64,
)
    ensures
        chunks_of(live_files(files, now), path).contains_key(k) <==> chunks_of(
            files,
            path,
        ).contains_key(k) && now - files[path][k].created_at <= 10_000_000_000,
        chunks_of(live_files(files, now), path).contains_key(k) ==> live_files(files, now)[path][k]
            == files[path][k],
        live_files(files, now).contains_key(path) ==> exists|j: u64| #[trigger]
            live_files(files, now)[path].contains_key(j),
        live_listings(dirs, now).contains_key(path) <==> dirs.contains_key(path) && now
            - dirs[path].created_at <= dirs[path].ttl,
        live_listings(dirs, now).contains_key(path) ==> live_listings(dirs, now)[path]
            == dirs[path],
{
    if files.contains_key(path) {
        let l = live(files[path], now);
        if l.contains_key(k) {
            assert(l.dom().contains(k));
        }
        if live_files(files, now).contains_key(path) {
            let j = l.dom().choose();
            assert(l.dom().contains(j));
            assert(live_files(files, now)[path].contains_key(j));
        }
    }
}

/// A chunk lies on its grid: it starts at a multiple of the chunk size, not behind
/// the offset and less than a chunk before it.
pub proof fn law_chunk_start(offset: int, chunk_size: int)
    requires
        0 <= offset,
        0 < chunk_size,
    ensures
        chunk_start(offset, chunk_size) % chunk_size == 0,
        0 <= chunk_start(offset, chunk_size) <= offset < chunk_start(offset, chunk_size)
            + chunk_size,
        chunk_start(chunk_start(offset, chunk_size), chunk_size) == chunk_start(offset, chunk_size),
{
    vstd::arithmetic::div_mod::lemma_fundamental_div_mod(offset, chunk_size);
    vstd::arithmetic::div_mod::lemma_mod_bound(offset, chunk_size);
    let q = offset / chunk_size;
    assert(chunk_start(offset, chunk_size) == chunk_size * q);
    vstd::arithmetic::div_mod::lemma_mod_multiples_basic(q, chunk_size);
    assert(chunk_size * q == q * chunk_size) by (nonlinear_arith);
    vstd::arithmetic::div_mod::lemma_div_pos_is_pos(offset, chunk_size);
    assert(chunk_size * q >= 0) by (nonlinear_arith)
        requires
            chunk_size > 0,
            q >= 0,
    ;
}

/// What is read out of a chunk that was stored is the part of its bytes that was
/// asked for, for as long as the chunk is good and no longer.
pub proof fn law_stored_then_read(
    before: Map<Seq<char>, Map<u64, ChunkView>>,
    after: Map<Seq<char>, Map<u64, ChunkView>>,
    last: Map<Seq<char>, Map<u64, ChunkView>>,
    path: Seq<char>,
    start: u64,
    data: Seq<u8>,
    max: nat,
    t: Reading,
    chunk_size: int,
    offset: int,
    size: int,
    later: Reading,
    r: Option<Vec<u8>>,
)
    requires
        stored(before, after, path, start, data, max, t),
        0 < chunk_size,
        chunk_start(offset, chunk_size) == start,
        0 <= offset,
        0 <= size,
        read_out(after, path, chunk_size, offset, size, later, r, last),
    ensures
        later.instant - t.instant > 10_000_000_000 ==> r is None,
        later.instant - t.instant <= 10_000_000_000 ==> {
            &&& r matches Some(bytes)
            &&& bytes@.len() <= size
            &&& forall|i: int|
                0 <= i < bytes@.len() ==> offset - start + i < data.len() && #[trigger] bytes@[i]
                    == data[offset - start + i]
            &&& bytes@.len() < size ==> offset - start + bytes@.len() >= data.len()
        },
{
    vstd::arithmetic::div_mod::lemma_mod_bound(offset, chunk_size);
}

/// Looking for a chunk changes no bytes, no other chunk and no other file: it takes
/// note of the moment where the chunk is good, and drops it where it is too old.
pub proof fn law_looked_up(
    files: Map<Seq<char>, Map<u64, ChunkView>>,
    path: Seq<char>,
    start: u64,
    t: Reading,
    other: Seq<char>,
    k: u64,
)
    ensures
        ({
            let after = looked_up(files, path, start, t);
            let good = chunks_of(files, path).contains_key(start) && t.instant
                - files[path][start].created_at <= 10_000_000_000;
            &&& other != path ==> chunks_of(after, other) == chunks_of(files, other)
            &&& k != start ==> (chunks_of(after, path).contains_key(k) <==> chunks_of(
                files,
                path,
            ).contains_key(k))
            &&& k != start && chunks_of(files, path).contains_key(k) ==> after[path][k]
                == files[path][k]
            &&& chunks_of(after, path).contains_key(start) <==> good
            &&& good ==> after[path][start].data == files[path][start].data
                && after[path][start].created_at == files[path][start].created_at
                && after[path][start].last_access == t.wall
        }),
{
}

/// Making room takes no chunk while there is room, leaves those it does not take
/// as they were, and ends with room unless nothing is left to take.
pub proof fn law_evicted(
    before: Map<u64, ChunkView>,
    after: Map<u64, ChunkView>,
    len: nat,
    max: nat,
    k: u64,
)
    requires
        before.dom().finite(),
        evicted(before, after, len, max),
    ensures
        after.contains_key(k) ==> before.contains_key(k) && after[k] == before[k],
        chunks_size(before) + len <= max ==> after == before,
        chunks_size(after) + len <= max || !after.contains_key(k),
        before.contains_key(k) && !after.contains_key(k) ==> forall|j: u64| #[trigger]
            after.contains_key(j) ==> before[k].last_access <= before[j].last_access,
{
    if after != before {
        let last = choose|last: u64| #[trigger]
            evicted_last(before, after, last) && chunks_size(after) + before[last].data.len() + len
                > max;
        lemma_size_part(before, after.insert(last, before[last]));
        assert(after.dom().subset_of(before.dom()));
        vstd::set_lib::lemma_len_subset(after.dom(), before.dom());
        lemma_size_insert(after, last, before[last]);
    }
    if after.dom().is_empty() {
        assert(!after.dom().contains(k));
    }
}

/// A part of the chunks has no more bytes than the whole.
proof fn lemma_size_part(whole: Map<u64, ChunkView>, part: Map<u64, ChunkView>)
    requires
        whole.dom().finite(),
        part_of(part, whole),
    ensures
        part.dom().finite(),
        chunks_size(part) <= chunks_size(whole),
    decreases whole.dom().len(),
{
    assert(part.dom().subset_of(whole.dom()));
    vstd::set_lib::lemma_len_subset(part.dom(), whole.dom());
    if part.dom().len() > 0 {
        let k = part.dom().choose();
        assert(part.dom().contains(k));
        assert(part.contains_key(k) && whole.contains_key(k));
        lemma_size_remove(whole, k);
        assert(whole.remove(k).dom() =~= whole.dom().remove(k));
        lemma_size_part(whole.remove(k), part.remove(k));
    }
}

/// The listing that shows an entry is that of the path in front of its last slash,
/// and of the root where nothing stands in front of it.
pub proof fn law_parent_listing(dir: Seq<char>, name: Seq<char>)
    requires
        !name.contains('/'),
    ensures
        parent_listing(dir + seq!['/'] + name) == Some(
            if dir.len() == 0 {
                "/"@
            } else {
                dir
            },
        ),
        parent_listing(name) is None,
{
    let path = dir + seq!['/'] + name;
    crate::paths::lemma_last_position(path, '/');
    crate::paths::lemma_last_position(name, '/');
    assert(path[dir.len() as int] == '/');
    assert(path.contains('/'));
    let i = last_position(path, '/')->Some_0;
    if i > dir.len() {
        assert(name[i - dir.len() - 1] == '/');
    }
    assert(path.take(dir.len() as int) =~= dir);
}

} // verus!
