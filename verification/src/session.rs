//! Reading a range of a file through the chunk cache.
//!
//! A read is a session: what the cache holds is taken from it, and where it
//! falls short the session asks for one chunk to be fetched. Once the chunk is
//! handed in, the session goes on; a fetch that failed ends the read.

use vstd::prelude::*;

use crate::api::ApiError;
use crate::bytes::{slice, slice_of};
use crate::cache::{
    chunk_expired, chunk_start, chunks_of, chunks_size, good_chunk, lemma_size_insert, live,
    looked_up, stored, CacheManager, ChunkView, DATA_CACHE_TTL,
};
use crate::clock::Reading;
use crate::text::owned;

verus! {

/// A read under way: `offset` is where it stands, `remaining` is what it still
/// wants.
#[derive(Debug)]
pub struct ReadSession {
    pub path: String,
    pub chunk_size: u32,
    pub offset: u64,
    pub remaining: u64,
    pub collected: Vec<u8>,
    pub finished: bool,
}

/// The model of a read under way.
#[verifier::ext_equal]
pub struct SessionView {
    pub path: Seq<char>,
    pub chunk_size: nat,
    pub offset: nat,
    pub remaining: nat,
    pub collected: Seq<u8>,
    pub finished: bool,
}

impl View for ReadSession {
    type V = SessionView;

    open spec fn view(&self) -> SessionView {
        SessionView {
            path: self.path@,
            chunk_size: self.chunk_size as nat,
            offset: self.offset as nat,
            remaining: self.remaining as nat,
            collected: self.collected@,
            finished: self.finished,
        }
    }
}

/// The session of a read of `size` bytes of `path` from `offset` on, as it
/// begins.
pub open spec fn started(path: Seq<char>, chunk_size: nat, offset: nat, size: nat) -> SessionView {
    SessionView {
        path,
        chunk_size,
        offset,
        remaining: size,
        collected: Seq::empty(),
        finished: size == 0,
    }
}

/// How far into its chunk the session stands.
pub open spec fn within_chunk(s: SessionView) -> int {
    s.offset - chunk_start(s.offset as int, s.chunk_size as int)
}

/// What the session wants of the chunk it stands in.
pub open spec fn needed(s: SessionView) -> nat {
    let left = s.chunk_size - within_chunk(s);
    if left < s.remaining {
        left as nat
    } else {
        s.remaining
    }
}

/// The session once it got `piece` of the chunk it stands in. It is over when it
/// has all it wants, when the chunk gave less than was wanted of it, because the
/// file ends there, or when no offset is left.
pub open spec fn absorbed(s: SessionView, piece: Seq<u8>) -> SessionView {
    let end = s.offset + piece.len();
    let left = if piece.len() < s.remaining {
        (s.remaining - piece.len()) as nat
    } else {
        0
    };
    SessionView {
        offset: if end <= u64::MAX {
            end
        } else {
            u64::MAX as nat
        },
        remaining: left,
        collected: s.collected + piece,
        finished: piece.len() == 0 || piece.len() < needed(s) || left == 0 || end > u64::MAX,
        ..s
    }
}

/// The cached chunks and the session once it took at `t` all that the cache
/// holds for it.
pub open spec fn served(
    files: Map<Seq<char>, Map<u64, ChunkView>>,
    s: SessionView,
    t: Reading,
) -> (Map<Seq<char>, Map<u64, ChunkView>>, SessionView)
    decreases
            s.remaining,
            (if s.finished {
                0int
            } else {
                1int
            }),
{
    if s.finished {
        (files, s)
    } else {
        let start = chunk_start(s.offset as int, s.chunk_size as int) as u64;
        let after = looked_up(files, s.path, start, t);
        match good_chunk(files, s.path, start, t.instant as int) {
            Some(c) => served(
                after,
                absorbed(s, slice(c.data, within_chunk(s), needed(s) as int)),
                t,
            ),
            None => (after, s),
        }
    }
}

/// The session once `data` came for the chunk it stands in.
pub open spec fn replied(s: SessionView, data: Seq<u8>) -> SessionView {
    if within_chunk(s) >= data.len() {
        SessionView { finished: true, ..s }
    } else {
        absorbed(s, slice(data, within_chunk(s), needed(s) as int))
    }
}

/// The cached chunks once `data` came at `t` for the chunk that the session
/// stands in: a chunk that reaches to where the session stands is kept, another
/// is not.
pub open spec fn supplied(
    before: Map<Seq<char>, Map<u64, ChunkView>>,
    after: Map<Seq<char>, Map<u64, ChunkView>>,
    s: SessionView,
    data: Seq<u8>,
    max: nat,
    t: Reading,
) -> bool {
    if within_chunk(s) >= data.len() {
        after == before
    } else {
        stored(
            before,
            after,
            s.path,
            chunk_start(s.offset as int, s.chunk_size as int) as u64,
            data,
            max,
            t,
        )
    }
}

/// What the session asks for: the start of a chunk and its size.
pub open spec fn wanted(s: SessionView) -> Option<(int, int)> {
    if s.finished {
        None
    } else {
        Some((chunk_start(s.offset as int, s.chunk_size as int), s.chunk_size as int))
    }
}

/// The remainder lies below the divisor and does not exceed the number.
proof fn lemma_within(offset: nat, chunk_size: nat)
    requires
        chunk_size > 0,
    ensures
        0 <= offset as int % chunk_size as int,
        offset as int % chunk_size as int <= offset,
        (offset as int % chunk_size as int) < chunk_size,
{
    vstd::arithmetic::div_mod::lemma_mod_bound(offset as int, chunk_size as int);
    vstd::arithmetic::div_mod::lemma_mod_decreases(offset, chunk_size);
}

impl ReadSession {
    /// A session that goes on wants something.
    pub open spec fn wf(&self) -> bool {
        &&& self.chunk_size > 0
        &&& !self.finished ==> self.remaining > 0
    }

    /// Takes in a piece of the chunk that the session stands in.
    fn absorb(&mut self, piece: Vec<u8>)
        requires
            old(self).wf(),
            piece@.len() <= needed(old(self)@),
        ensures
            final(self).wf(),
            final(self)@ == absorbed(old(self)@, piece@),
    {
        proof {
            lemma_within(self.offset as nat, self.chunk_size as nat);
        }
        let within: u64 = self.offset % (self.chunk_size as u64);
        let left: u64 = self.chunk_size as u64 - within;
        let needed: u64 = if left < self.remaining {
            left
        } else {
            self.remaining
        };
        let len: u64 = piece.len() as u64;
        let mut rest = piece;
        self.collected.append(&mut rest);
        self.remaining = self.remaining - len;
        self.finished = len == 0 || len < needed || self.remaining == 0;
        match self.offset.checked_add(len) {
            Some(end) => {
                self.offset = end;
            },
            None => {
                self.offset = u64::MAX;
                self.finished = true;
            },
        }
        assert(self@ =~= absorbed(old(self)@, piece@));
    }
}

impl CacheManager {
    /// A read of `size` bytes of `path` from `offset` on.
    pub fn start_read(&self, path: &str, offset: u64, size: u32) -> (s: ReadSession)
        requires
            self.wf(),
        ensures
            s.wf(),
            s@ == started(path@, self.chunk_size as nat, offset as nat, size as nat),
            s.path@ == path@,
            s.chunk_size == self.chunk_size,
            s.offset == offset,
            s.remaining == size,
            s.collected@.len() == 0,
            s.finished <==> size == 0,
    {
        ReadSession {
            path: owned(path),
            chunk_size: self.chunk_size,
            offset,
            remaining: size as u64,
            collected: Vec::new(),
            finished: size == 0,
        }
    }

    /// Goes on with a read at `t` as far as the cache allows, and says which
    /// chunk has to be fetched next, by its start and its size. `None` says that
    /// the read is over.
    pub fn read_with_cache_at(&mut self, session: &mut ReadSession, t: Reading) -> (r: Option<
        (u64, u32),
    >)
        requires
            old(self).wf(),
            old(session).wf(),
            old(session).chunk_size == old(self).chunk_size,
        ensures
            final(self).wf(),
            final(self).same_settings(old(self)),
            final(self).dirs() == old(self).dirs(),
            final(session).wf(),
            (final(self).files(), final(session)@) == served(old(self).files(), old(session)@, t),
            match r {
                Some(w) => wanted(final(session)@) == Some((w.0 as int, w.1 as int)),
                None => wanted(final(session)@) is None,
            },
            r is None <==> final(session).finished,
            r matches Some(w) ==> w.1 == old(session).chunk_size && w.0 as int % w.1 as int == 0 && w.0
                <= final(session).offset < w.0 + w.1,
            final(session).path@ == old(session).path@,
            final(session).chunk_size == old(session).chunk_size,
            final(session).collected@.len() + final(session).remaining == old(session).collected@.len() + old(session).remaining,
            forall|i: int|
                0 <= i < old(session).collected@.len() ==> #[trigger] final(session).collected@[i] == old(session).collected@[i],
    {
        proof {
            lemma_within(session.offset as nat, session.chunk_size as nat);
            law_served(self.files(), session@, t);
        }
        let ghost target = served(self.files(), session@, t);
        let ghost entry = *self;
        let mut stuck = false;
        while !session.finished && !stuck
            invariant
                self.wf(),
                self.same_settings(&entry),
                self.dirs() == entry.dirs(),
                session.wf(),
                session.chunk_size == self.chunk_size,
                stuck ==> !session.finished && (self.files(), session@) == target,
                !stuck ==> served(self.files(), session@, t) == target,
            decreases
                    (if stuck {
                        0int
                    } else {
                        1int
                    }),
                    session.remaining,
                    (if session.finished {
                        0int
                    } else {
                        1int
                    }),
        {
            proof {
                lemma_within(session.offset as nat, session.chunk_size as nat);
            }
            let within: u64 = session.offset % (session.chunk_size as u64);
            let left: u64 = session.chunk_size as u64 - within;
            let needed: u64 = if left < session.remaining {
                left
            } else {
                session.remaining
            };
            let found = self.read_from_cache_at(
                session.path.as_str(),
                session.offset,
                needed as u32,
                t,
            );
            match found {
                Some(piece) => {
                    session.absorb(piece);
                },
                None => {
                    stuck = true;
                },
            }
        }
        if session.finished {
            None
        } else {
            proof {
                lemma_within(session.offset as nat, session.chunk_size as nat);
                lemma_start_divides(session.offset as nat, session.chunk_size as nat);
            }
            Some((session.offset - session.offset % (session.chunk_size as u64), session.chunk_size))
        }
    }

    /// Goes on with a read as far as the cache allows by now.
    pub fn read_with_cache(&mut self, session: &mut ReadSession) -> (r: Option<(u64, u32)>)
        requires
            old(self).wf(),
            old(session).wf(),
            old(session).chunk_size == old(self).chunk_size,
        ensures
            final(self).wf(),
            final(self).same_settings(old(self)),
            final(self).dirs() == old(self).dirs(),
            final(session).wf(),
            exists|t: Reading|
                t.instant >= 0 && (final(self).files(), final(session)@) == #[trigger] served(
                    old(self).files(),
                    old(session)@,
                    t,
                ),
            match r {
                Some(w) => wanted(final(session)@) == Some((w.0 as int, w.1 as int)),
                None => wanted(final(session)@) is None,
            },
    {
        let t = self.clock.read();
        self.read_with_cache_at(session, t)
    }

    /// Hands in, at `t`, what fetching the chunk that the session asked for gave.
    /// A chunk that reaches to where the session stands is kept; one that does
    /// not ends the read. A fetch that failed ends the read with its error, and
    /// neither the cache nor the session changes.
    pub fn supply_at(
        &mut self,
        session: &mut ReadSession,
        fetched: Result<Vec<u8>, ApiError>,
        t: Reading,
    ) -> (r: Result<(), ApiError>)
        requires
            old(self).wf(),
            old(session).wf(),
            !old(session).finished,
        ensures
            final(self).wf(),
            final(self).same_settings(old(self)),
            final(self).dirs() == old(self).dirs(),
            final(session).wf(),
            match fetched {
                Ok(data) => {
                    &&& r is Ok
                    &&& final(session)@ == replied(old(session)@, data@)
                    &&& supplied(
                        old(self).files(),
                        final(self).files(),
                        old(session)@,
                        data@,
                        old(self).max_cache_size as nat,
                        t,
                    )
                },
                Err(e) => {
                    &&& r == Err::<(), ApiError>(e)
                    &&& final(session)@ == old(session)@
                    &&& final(self).files() == old(self).files()
                },
            },
            fetched is Ok <==> r is Ok,
            final(session).path@ == old(session).path@,
            final(session).chunk_size == old(session).chunk_size,
            final(session).collected@.len() + final(session).remaining == old(session).collected@.len() + old(session).remaining,
            forall|i: int|
                0 <= i < old(session).collected@.len() ==> #[trigger] final(session).collected@[i] == old(session).collected@[i],
            fetched matches Ok(data) ==> forall|i: int|
                old(session).collected@.len() <= i < final(session).collected@.len()
                    ==> #[trigger] final(session).collected@[i] == data@[old(session).offset as int % old(session).chunk_size as int + (i - old(session).collected@.len())],
            fetched is Err ==> final(session).collected@.len() == old(session).collected@.len(),
    {
        let data = match fetched {
            Ok(data) => data,
            Err(e) => {
                return Err(e);
            },
        };
        proof {
            lemma_within(session.offset as nat, session.chunk_size as nat);
        }
        let within: u64 = session.offset % (session.chunk_size as u64);
        let start: u64 = session.offset - within;
        if within >= data.len() as u64 {
            session.finished = true;
            return Ok(());
        }
        let left: u64 = session.chunk_size as u64 - within;
        let needed: u64 = if left < session.remaining {
            left
        } else {
            session.remaining
        };
        let piece = slice_of(&data, within, needed);
        self.store_chunk_at(session.path.as_str(), start, data, t);
        session.absorb(piece);
        Ok(())
    }

    /// Hands in, now, what fetching the chunk that the session asked for gave.
    pub fn supply(
        &mut self,
        session: &mut ReadSession,
        fetched: Result<Vec<u8>, ApiError>,
    ) -> (r: Result<(), ApiError>)
        requires
            old(self).wf(),
            old(session).wf(),
            !old(session).finished,
        ensures
            final(self).wf(),
            final(self).same_settings(old(self)),
            final(self).dirs() == old(self).dirs(),
            final(session).wf(),
            match fetched {
                Ok(data) => {
                    &&& r is Ok
                    &&& final(session)@ == replied(old(session)@, data@)
                    &&& exists|t: Reading|
                        t.instant >= 0 && #[trigger] supplied(
                            old(self).files(),
                            final(self).files(),
                            old(session)@,
                            data@,
                            old(self).max_cache_size as nat,
                            t,
                        )
                },
                Err(e) => {
                    &&& r == Err::<(), ApiError>(e)
                    &&& final(session)@ == old(session)@
                    &&& final(self).files() == old(self).files()
                },
            },
    {
        let t = self.clock.read();
        self.supply_at(session, fetched, t)
    }
}

/// The chunks that are not too old at `since` hold what stands in the file
/// `content` at their offsets, which are multiples of the chunk size.
pub open spec fn mirrors(
    chunks: Map<u64, ChunkView>,
    content: Seq<u8>,
    chunk_size: nat,
    since: int,
) -> bool {
    forall|k: u64| #[trigger]
        chunks.contains_key(k) && !chunk_expired(chunks[k], since) ==> k as int % chunk_size as int
            == 0 && chunks[k].data == slice(content, k as int, chunk_size as int)
}

/// The session is on its way to the `size` bytes of `content` from `from` on,
/// and has them once it is finished. The file is one whose bytes all have an
/// offset.
pub open spec fn reads(s: SessionView, content: Seq<u8>, from: nat, size: nat) -> bool {
    &&& s.chunk_size > 0
    &&& s.offset == from + s.collected.len()
    &&& s.remaining + s.collected.len() == size
    &&& !s.finished ==> s.remaining > 0
    &&& s.collected == slice(content, from as int, s.collected.len() as int)
    &&& s.finished ==> s.collected == slice(content, from as int, size as int)
    &&& s.offset <= u64::MAX
    &&& content.len() <= u64::MAX
}

/// A slice of a slice.
proof fn lemma_slice_slice(content: Seq<u8>, start: int, len: int, o: int, n: int)
    requires
        0 <= start,
        0 <= o,
        0 <= n,
        o + n <= len,
    ensures
        slice(slice(content, start, len), o, n) == slice(content, start + o, n),
{
    assert(slice(slice(content, start, len), o, n) =~= slice(content, start + o, n));
}

/// A piece of the chunk that the session stands in, taken from the file, brings
/// the session on.
proof fn lemma_absorbed(s: SessionView, content: Seq<u8>, from: nat, size: nat)
    requires
        reads(s, content, from, size),
        !s.finished,
    ensures
        reads(
            absorbed(s, slice(content, s.offset as int, needed(s) as int)),
            content,
            from,
            size,
        ),
{
    lemma_within(s.offset, s.chunk_size);
    let piece = slice(content, s.offset as int, needed(s) as int);
    let next = absorbed(s, piece);
    assert(next.collected =~= slice(content, from as int, next.collected.len() as int));
    if next.finished {
        assert(next.collected =~= slice(content, from as int, size as int));
    }
}

/// Looking a chunk up keeps the chunks of the file true to its contents.
proof fn lemma_looked_up_mirrors(
    files: Map<Seq<char>, Map<u64, ChunkView>>,
    path: Seq<char>,
    start: u64,
    t: Reading,
    content: Seq<u8>,
    chunk_size: nat,
    since: int,
)
    requires
        mirrors(chunks_of(files, path), content, chunk_size, since),
    ensures
        mirrors(chunks_of(looked_up(files, path, start, t), path), content, chunk_size, since),
{
}

/// As long as the cached chunks that are not too old are true to the file, what a
/// read takes from the cache is what stands in the file: a read that the cache can finish has
/// exactly the bytes asked for, as far as the file has them.
pub proof fn law_cached_read(
    files: Map<Seq<char>, Map<u64, ChunkView>>,
    s: SessionView,
    t: Reading,
    content: Seq<u8>,
    from: nat,
    size: nat,
    since: int,
)
    requires
        mirrors(chunks_of(files, s.path), content, s.chunk_size, since),
        since <= t.instant,
        reads(s, content, from, size),
    ensures
        mirrors(chunks_of(served(files, s, t).0, s.path), content, s.chunk_size, since),
        reads(served(files, s, t).1, content, from, size),
    decreases
            s.remaining,
            (if s.finished {
                0int
            } else {
                1int
            }),
{
    if !s.finished {
        let start = chunk_start(s.offset as int, s.chunk_size as int) as u64;
        let after = looked_up(files, s.path, start, t);
        lemma_within(s.offset, s.chunk_size);
        lemma_looked_up_mirrors(files, s.path, start, t, content, s.chunk_size, since);
        match good_chunk(files, s.path, start, t.instant as int) {
            Some(c) => {
                assert(chunks_of(files, s.path).contains_key(start));
                lemma_slice_slice(
                    content,
                    start as int,
                    s.chunk_size as int,
                    within_chunk(s),
                    needed(s) as int,
                );
                lemma_absorbed(s, content, from, size);
                let next = absorbed(s, slice(c.data, within_chunk(s), needed(s) as int));
                law_cached_read(after, next, t, content, from, size, since);
            },
            None => {},
        }
    }
}

/// A chunk fetched from the file brings a read nearer its end with the bytes
/// that stand in the file.
pub proof fn law_fetched_read(
    s: SessionView,
    data: Seq<u8>,
    content: Seq<u8>,
    from: nat,
    size: nat,
)
    requires
        reads(s, content, from, size),
        !s.finished,
        data == slice(
            content,
            chunk_start(s.offset as int, s.chunk_size as int),
            s.chunk_size as int,
        ),
    ensures
        reads(replied(s, data), content, from, size),
        replied(s, data).finished || replied(s, data).remaining < s.remaining,
{
    lemma_within(s.offset, s.chunk_size);
    let start = chunk_start(s.offset as int, s.chunk_size as int);
    lemma_slice_slice(content, start, s.chunk_size as int, within_chunk(s), needed(s) as int);
    lemma_absorbed(s, content, from, size);
    if within_chunk(s) >= data.len() {
        assert(s.collected =~= slice(content, from as int, size as int));
    }
}

/// Storing a chunk of the file keeps the cached chunks true to it.
pub proof fn law_store_mirrors(
    before: Map<Seq<char>, Map<u64, ChunkView>>,
    after: Map<Seq<char>, Map<u64, ChunkView>>,
    path: Seq<char>,
    start: u64,
    max: nat,
    t: Reading,
    content: Seq<u8>,
    chunk_size: nat,
    since: int,
)
    requires
        mirrors(chunks_of(before, path), content, chunk_size, since),
        start as int % chunk_size as int == 0,
        stored(
            before,
            after,
            path,
            start,
            slice(content, start as int, chunk_size as int),
            max,
            t,
        ),
    ensures
        mirrors(chunks_of(after, path), content, chunk_size, since),
{
}

/// One round of a read: the cache was asked at `asked`, `data` was fetched for the
/// chunk that it fell short of, and `after` is what is cached once that was
/// handed in at `handed`.
pub struct Round {
    pub asked: Reading,
    pub data: Seq<u8>,
    pub handed: Reading,
    pub after: Map<Seq<char>, Map<u64, ChunkView>>,
}

/// The read that stands at `s` over the cached chunks `files` goes through
/// `rounds`, and the cache finishes it at `last`.
pub open spec fn goes_through(
    files: Map<Seq<char>, Map<u64, ChunkView>>,
    s: SessionView,
    max: nat,
    rounds: Seq<Round>,
    last: Reading,
) -> bool
    decreases rounds.len(),
{
    if rounds.len() == 0 {
        served(files, s, last).1.finished
    } else {
        let round = rounds[0];
        let (left, stuck) = served(files, s, round.asked);
        &&& !stuck.finished
        &&& supplied(left, round.after, stuck, round.data, max, round.handed)
        &&& goes_through(
            round.after,
            replied(stuck, round.data),
            max,
            rounds.drop_first(),
            last,
        )
    }
}

/// Where a read that went through `rounds` stands at the end.
pub open spec fn read_end(
    files: Map<Seq<char>, Map<u64, ChunkView>>,
    s: SessionView,
    rounds: Seq<Round>,
    last: Reading,
) -> SessionView
    decreases rounds.len(),
{
    if rounds.len() == 0 {
        served(files, s, last).1
    } else {
        let stuck = served(files, s, rounds[0].asked).1;
        read_end(
            rounds[0].after,
            replied(stuck, rounds[0].data),
            rounds.drop_first(),
            last,
        )
    }
}

/// The chunks that a read asked for on its way through `rounds`, by their starts
/// and sizes.
pub open spec fn fetches(
    files: Map<Seq<char>, Map<u64, ChunkView>>,
    s: SessionView,
    rounds: Seq<Round>,
) -> Seq<(int, int)>
    decreases rounds.len(),
{
    if rounds.len() == 0 {
        Seq::empty()
    } else {
        let stuck = served(files, s, rounds[0].asked).1;
        seq![wanted(stuck)->Some_0] + fetches(
            rounds[0].after,
            replied(stuck, rounds[0].data),
            rounds.drop_first(),
        )
    }
}

/// Each round fetched what stands in the file `content` there.
pub open spec fn fetched_from(
    asked: Seq<(int, int)>,
    rounds: Seq<Round>,
    content: Seq<u8>,
) -> bool {
    forall|i: int|
        0 <= i < rounds.len() ==> (#[trigger] rounds[i]).data == slice(
            content,
            asked[i].0,
            asked[i].1,
        )
}

/// The cache was asked at `since` or later, each time.
pub open spec fn all_since(rounds: Seq<Round>, last: Reading, since: int) -> bool {
    &&& since <= last.instant
    &&& forall|i: int| 0 <= i < rounds.len() ==> since <= (#[trigger] rounds[i]).asked.instant
}

/// A read asks for one chunk in each round.
proof fn lemma_fetches_len(
    files: Map<Seq<char>, Map<u64, ChunkView>>,
    s: SessionView,
    rounds: Seq<Round>,
)
    ensures
        fetches(files, s, rounds).len() == rounds.len(),
    decreases rounds.len(),
{
    if rounds.len() > 0 {
        let stuck = served(files, s, rounds[0].asked).1;
        lemma_fetches_len(rounds[0].after, replied(stuck, rounds[0].data), rounds.drop_first());
    }
}

/// The path and the chunk size of a session stay while the cache serves it.
proof fn lemma_served_frame(
    files: Map<Seq<char>, Map<u64, ChunkView>>,
    s: SessionView,
    t: Reading,
)
    ensures
        served(files, s, t).1.path == s.path,
        served(files, s, t).1.chunk_size == s.chunk_size,
    decreases
            s.remaining,
            (if s.finished {
                0int
            } else {
                1int
            }),
{
    if !s.finished {
        let start = chunk_start(s.offset as int, s.chunk_size as int) as u64;
        let after = looked_up(files, s.path, start, t);
        match good_chunk(files, s.path, start, t.instant as int) {
            Some(c) => {
                let next = absorbed(s, slice(c.data, within_chunk(s), needed(s) as int));
                lemma_served_frame(after, next, t);
            },
            None => {},
        }
    }
}

/// A session that is on its way to bytes of a file ends with them.
proof fn lemma_read_on(
    files: Map<Seq<char>, Map<u64, ChunkView>>,
    s: SessionView,
    max: nat,
    rounds: Seq<Round>,
    last: Reading,
    content: Seq<u8>,
    from: nat,
    size: nat,
    since: int,
)
    requires
        mirrors(chunks_of(files, s.path), content, s.chunk_size, since),
        reads(s, content, from, size),
        goes_through(files, s, max, rounds, last),
        fetched_from(fetches(files, s, rounds), rounds, content),
        all_since(rounds, last, since),
    ensures
        read_end(files, s, rounds, last).finished,
        read_end(files, s, rounds, last).collected == slice(content, from as int, size as int),
    decreases rounds.len(),
{
    if rounds.len() == 0 {
        law_cached_read(files, s, last, content, from, size, since);
    } else {
        let round = rounds[0];
        let rest = rounds.drop_first();
        let (left, stuck) = served(files, s, round.asked);
        law_cached_read(files, s, round.asked, content, from, size, since);
        lemma_served_frame(files, s, round.asked);
        let asked = fetches(files, s, rounds);
        let start = chunk_start(stuck.offset as int, stuck.chunk_size as int);
        assert(asked[0] == (start, stuck.chunk_size as int));
        law_fetched_read(stuck, round.data, content, from, size);
        lemma_within(stuck.offset, stuck.chunk_size);
        lemma_start_divides(stuck.offset, stuck.chunk_size);
        if within_chunk(stuck) < round.data.len() {
            law_store_mirrors(
                left,
                round.after,
                s.path,
                start as u64,
                max,
                round.handed,
                content,
                s.chunk_size,
                since,
            );
        }
        let next = replied(stuck, round.data);
        let later = fetches(round.after, next, rest);
        lemma_fetches_len(round.after, next, rest);
        assert forall|i: int| 0 <= i < rest.len() implies (#[trigger] rest[i]).data == slice(
            content,
            later[i].0,
            later[i].1,
        ) by {
            assert(rest[i] == rounds[i + 1]);
            assert(later[i] == asked[i + 1]);
        }
        assert forall|i: int| 0 <= i < rest.len() implies since <= (
        #[trigger] rest[i]).asked.instant by {
            assert(rest[i] == rounds[i + 1]);
        }
        lemma_read_on(round.after, next, max, rest, last, content, from, size, since);
    }
}

/// The start of a chunk is a multiple of the chunk size.
proof fn lemma_start_divides(offset: nat, chunk_size: nat)
    requires
        chunk_size > 0,
    ensures
        chunk_start(offset as int, chunk_size as int) % chunk_size as int == 0,
{
    let d = chunk_size as int;
    vstd::arithmetic::div_mod::lemma_fundamental_div_mod(offset as int, d);
    vstd::arithmetic::div_mod::lemma_mod_multiples_basic(offset as int / d, d);
    assert(d * (offset as int / d) == (offset as int / d) * d) by (nonlinear_arith);
}

/// A whole read through the cache gives what stands in the file: where the
/// cached chunks that are not too old are true to the file and every fetch gives
/// what stands there, the read ends with exactly the bytes of the file from
/// `offset` on, up to `size` of them, whatever was cached and whatever had to be
/// fetched.
pub proof fn law_read_through(
    files: Map<Seq<char>, Map<u64, ChunkView>>,
    path: Seq<char>,
    chunk_size: nat,
    offset: nat,
    size: nat,
    max: nat,
    rounds: Seq<Round>,
    last: Reading,
    content: Seq<u8>,
    since: int,
)
    requires
        chunk_size > 0,
        offset <= u64::MAX,
        content.len() <= u64::MAX,
        mirrors(chunks_of(files, path), content, chunk_size, since),
        goes_through(files, started(path, chunk_size, offset, size), max, rounds, last),
        fetched_from(
            fetches(files, started(path, chunk_size, offset, size), rounds),
            rounds,
            content,
        ),
        all_since(rounds, last, since),
    ensures
        read_end(
            files,
            started(path, chunk_size, offset, size),
            rounds,
            last,
        ).collected == slice(content, offset as int, size as int),
{
    let s = started(path, chunk_size, offset, size);
    assert(s.collected =~= slice(content, offset as int, 0));
    lemma_read_on(files, s, max, rounds, last, content, offset, size, since);
}

/// The session lies within the `size` bytes from `from` on.
spec fn lies_within(s: SessionView, from: nat, size: nat) -> bool {
    &&& s.chunk_size > 0
    &&& s.offset <= u64::MAX
    &&& from <= s.offset
    &&& !s.finished ==> s.remaining > 0 && s.offset + s.remaining <= from + size
}

/// A session stays within the bytes it is for, and goes forward, as it takes in
/// a piece; while it goes on, it goes on at the start of the next chunk.
proof fn lemma_forward(s: SessionView, piece: Seq<u8>, from: nat, size: nat)
    requires
        lies_within(s, from, size),
        !s.finished,
        piece.len() <= needed(s),
    ensures
        lies_within(absorbed(s, piece), from, size),
        !absorbed(s, piece).finished ==> absorbed(s, piece).offset == chunk_start(
            s.offset as int,
            s.chunk_size as int,
        ) + s.chunk_size,
{
    lemma_within(s.offset, s.chunk_size);
}

/// A session stays within the bytes it is for, and does not go back, as the
/// cache serves it.
proof fn lemma_served_forward(
    files: Map<Seq<char>, Map<u64, ChunkView>>,
    s: SessionView,
    t: Reading,
    from: nat,
    size: nat,
)
    requires
        lies_within(s, from, size),
    ensures
        lies_within(served(files, s, t).1, from, size),
        !served(files, s, t).1.finished ==> !s.finished && s.offset <= served(
            files,
            s,
            t,
        ).1.offset,
    decreases
            s.remaining,
            (if s.finished {
                0int
            } else {
                1int
            }),
{
    if !s.finished {
        let start = chunk_start(s.offset as int, s.chunk_size as int) as u64;
        let after = looked_up(files, s.path, start, t);
        match good_chunk(files, s.path, start, t.instant as int) {
            Some(c) => {
                let piece = slice(c.data, within_chunk(s), needed(s) as int);
                lemma_within(s.offset, s.chunk_size);
                lemma_forward(s, piece, from, size);
                lemma_served_forward(after, absorbed(s, piece), t, from, size);
            },
            None => {},
        }
    }
}

/// The chunks that a session asks for start no earlier than the one it stands
/// in, lie one after the other, and meet the bytes it is for.
proof fn lemma_fetches_forward(
    files: Map<Seq<char>, Map<u64, ChunkView>>,
    s: SessionView,
    max: nat,
    rounds: Seq<Round>,
    last: Reading,
    from: nat,
    size: nat,
)
    requires
        lies_within(s, from, size),
        goes_through(files, s, max, rounds, last),
    ensures
        fetches(files, s, rounds).len() == rounds.len(),
        s.finished ==> rounds.len() == 0,
        forall|i: int|
            0 <= i < rounds.len() ==> {
                let (start, len) = #[trigger] fetches(files, s, rounds)[i];
                &&& len == s.chunk_size
                &&& start % len == 0
                &&& from < start + len
                &&& s.offset < start + len
                &&& start < from + size
            },
        forall|i: int, j: int|
            0 <= i < j < rounds.len() ==> (#[trigger] fetches(files, s, rounds)[i]).0
                + s.chunk_size <= (#[trigger] fetches(files, s, rounds)[j]).0,
    decreases rounds.len(),
{
    if rounds.len() > 0 {
        let round = rounds[0];
        let rest = rounds.drop_first();
        let stuck = served(files, s, round.asked).1;
        lemma_served_forward(files, s, round.asked, from, size);
        lemma_served_frame(files, s, round.asked);
        lemma_within(stuck.offset, stuck.chunk_size);
        lemma_start_divides(stuck.offset, stuck.chunk_size);
        let next = replied(stuck, round.data);
        let start = chunk_start(stuck.offset as int, stuck.chunk_size as int);
        if within_chunk(stuck) < round.data.len() {
            lemma_forward(
                stuck,
                slice(round.data, within_chunk(stuck), needed(stuck) as int),
                from,
                size,
            );
        }
        lemma_fetches_forward(round.after, next, max, rest, last, from, size);
        let asked = fetches(files, s, rounds);
        let later = fetches(round.after, next, rest);
        assert(asked[0] == (start, stuck.chunk_size as int));
        assert forall|i: int| 1 <= i < rounds.len() implies #[trigger] asked[i] == later[i - 1] by {
        }
        assert forall|i: int| 1 <= i < rounds.len() implies start + s.chunk_size <= (
        #[trigger] asked[i]).0 by {
            let (b, len) = later[i - 1];
            lemma_multiples_apart(start, b, len);
        }
    }
}

/// A multiple of `d` that ends after another one ends starts where the other
/// ends or later.
proof fn lemma_multiples_apart(a: int, b: int, d: int)
    requires
        d > 0,
        a % d == 0,
        b % d == 0,
        a + d < b + d,
    ensures
        a + d <= b,
{
    vstd::arithmetic::div_mod::lemma_fundamental_div_mod(a, d);
    vstd::arithmetic::div_mod::lemma_fundamental_div_mod(b, d);
    let (x, y) = (a / d, b / d);
    assert(d * x + d <= d * y) by (nonlinear_arith)
        requires
            d > 0,
            d * x < d * y,
    ;
}

/// A read asks for whole chunks only, each at a multiple of the chunk size, only
/// for such as meet the bytes that are read, and for none of them twice: they
/// come in order.
pub proof fn law_fetches(
    files: Map<Seq<char>, Map<u64, ChunkView>>,
    path: Seq<char>,
    chunk_size: nat,
    offset: nat,
    size: nat,
    max: nat,
    rounds: Seq<Round>,
    last: Reading,
)
    requires
        chunk_size > 0,
        offset <= u64::MAX,
        goes_through(files, started(path, chunk_size, offset, size), max, rounds, last),
    ensures
        ({
            let asked = fetches(files, started(path, chunk_size, offset, size), rounds);
            &&& asked.len() == rounds.len()
            &&& size == 0 ==> asked.len() == 0
            &&& forall|i: int|
                0 <= i < asked.len() ==> {
                    let (start, len) = #[trigger] asked[i];
                    &&& len == chunk_size
                    &&& start % len == 0
                    &&& start < offset + size
                    &&& offset < start + len
                }
            &&& forall|i: int, j: int|
                0 <= i < j < asked.len() ==> (#[trigger] asked[i]).0 < (#[trigger] asked[j]).0
        }),
{
    let s = started(path, chunk_size, offset, size);
    lemma_fetches_forward(files, s, max, rounds, last, offset, size);
}

/// Every chunk of the session's file that meets the bytes it still wants is
/// cached and good at `now`.
pub open spec fn all_held(
    files: Map<Seq<char>, Map<u64, ChunkView>>,
    s: SessionView,
    now: int,
) -> bool {
    forall|start: u64|
        start as int % s.chunk_size as int == 0 && start < s.offset + s.remaining && s.offset
            < start + s.chunk_size ==> #[trigger] good_chunk(files, s.path, start, now) is Some
}

/// A read all of whose chunks are cached and good is finished by the cache:
/// nothing is asked for. A read of no bytes changes nothing.
pub proof fn law_all_held(
    files: Map<Seq<char>, Map<u64, ChunkView>>,
    path: Seq<char>,
    chunk_size: nat,
    offset: nat,
    size: nat,
    t: Reading,
)
    requires
        chunk_size > 0,
        offset <= u64::MAX,
        all_held(files, started(path, chunk_size, offset, size), t.instant as int),
    ensures
        wanted(served(files, started(path, chunk_size, offset, size), t).1) is None,
        size == 0 ==> served(files, started(path, chunk_size, offset, size), t) == (
            files,
            started(path, chunk_size, offset, size),
        ),
{
    lemma_all_held(files, started(path, chunk_size, offset, size), t, offset, size);
}

/// A session all of whose chunks are cached and good is finished by the cache.
proof fn lemma_all_held(
    files: Map<Seq<char>, Map<u64, ChunkView>>,
    s: SessionView,
    t: Reading,
    from: nat,
    size: nat,
)
    requires
        lies_within(s, from, size),
        !s.finished ==> all_held(files, s, t.instant as int),
    ensures
        served(files, s, t).1.finished,
    decreases
            s.remaining,
            (if s.finished {
                0int
            } else {
                1int
            }),
{
    if !s.finished {
        let start = chunk_start(s.offset as int, s.chunk_size as int) as u64;
        let after = looked_up(files, s.path, start, t);
        lemma_within(s.offset, s.chunk_size);
        lemma_start_divides(s.offset, s.chunk_size);
        assert(good_chunk(files, s.path, start, t.instant as int) is Some);
        let c = good_chunk(files, s.path, start, t.instant as int)->Some_0;
        let piece = slice(c.data, within_chunk(s), needed(s) as int);
        let next = absorbed(s, piece);
        lemma_forward(s, piece, from, size);
        if !next.finished {
            assert forall|k: u64|
                k as int % next.chunk_size as int == 0 && k < next.offset + next.remaining
                    && next.offset < k + next.chunk_size implies #[trigger] good_chunk(
                after,
                next.path,
                k,
                t.instant as int,
            ) is Some by {
                assert(good_chunk(files, s.path, k, t.instant as int) is Some);
            }
        }
        lemma_all_held(after, next, t, from, size);
    }
}

/// A chunk that was stored is found until it is too old, and the bytes of it
/// that are asked for come back.
pub proof fn law_store_then_read(
    before: Map<Seq<char>, Map<u64, ChunkView>>,
    after: Map<Seq<char>, Map<u64, ChunkView>>,
    path: Seq<char>,
    start: u64,
    data: Seq<u8>,
    max: nat,
    t: Reading,
    later: Reading,
)
    requires
        stored(before, after, path, start, data, max, t),
        later.instant - t.instant <= DATA_CACHE_TTL,
    ensures
        good_chunk(after, path, start, later.instant as int) matches Some(c) && c.data == data,
        good_chunk(looked_up(after, path, start, later), path, start, later.instant as int) matches
            Some(c) && c.data == data,
{
}

/// After a store the file's cached bytes stay within the bound, unless the
/// chunk itself is larger: then it is all that is left.
pub proof fn law_store_bound(
    before: Map<Seq<char>, Map<u64, ChunkView>>,
    after: Map<Seq<char>, Map<u64, ChunkView>>,
    path: Seq<char>,
    start: u64,
    data: Seq<u8>,
    max: nat,
    t: Reading,
)
    requires
        chunks_of(before, path).dom().finite(),
        stored(before, after, path, start, data, max, t),
    ensures
        chunks_size(after[path]) <= max || after[path] == Map::<u64, ChunkView>::empty().insert(
            start,
            (ChunkView { data, last_access: t.wall, created_at: t.instant }),
        ),
{
    let good = live(chunks_of(before, path), t.instant as int);
    let kept = choose|kept: Map<u64, ChunkView>|
        #![trigger crate::cache::evicted(good, kept, data.len(), max)]
        crate::cache::evicted(good, kept, data.len(), max) && after == before.insert(
            path,
            kept.insert(
                start,
                ChunkView { data, last_access: t.wall, created_at: t.instant },
            ),
        );
    let chunk = ChunkView { data, last_access: t.wall, created_at: t.instant };
    assert(kept.dom().subset_of(chunks_of(before, path).dom())) by {
        assert forall|k: u64| kept.dom().contains(k) implies chunks_of(
            before,
            path,
        ).dom().contains(k) by {
            assert(kept.contains_key(k));
        }
    }
    vstd::set_lib::lemma_len_subset(kept.dom(), chunks_of(before, path).dom());
    let rest = kept.remove(start);
    assert(rest.insert(start, chunk) =~= kept.insert(start, chunk));
    assert(rest.dom() =~= kept.dom().remove(start));
    lemma_size_insert(rest, start, chunk);
    if kept.contains_key(start) {
        assert(rest.insert(start, kept[start]) =~= kept);
        lemma_size_insert(rest, start, kept[start]);
    } else {
        assert(rest =~= kept);
    }
    if kept.dom().is_empty() {
        assert(kept =~= Map::<u64, ChunkView>::empty());
    }
}

/// Nothing of a file that was invalidated is found in the cache.
pub proof fn law_invalidated(
    files: Map<Seq<char>, Map<u64, ChunkView>>,
    path: Seq<char>,
    start: u64,
    now: int,
)
    ensures
        good_chunk(files.remove(path), path, start, now) is None,
{
}

/// What the cache gives a read goes behind what it has: nothing of that changes,
/// what is gained is no longer wanted, and the path and the chunk size stay.
pub proof fn law_served(
    files: Map<Seq<char>, Map<u64, ChunkView>>,
    s: SessionView,
    t: Reading,
)
    requires
        s.chunk_size > 0,
        !s.finished ==> s.remaining > 0,
    ensures
        ({
            let after = served(files, s, t).1;
            &&& after.path == s.path
            &&& after.chunk_size == s.chunk_size
            &&& after.collected.len() >= s.collected.len()
            &&& after.collected.take(s.collected.len() as int) == s.collected
            &&& after.collected.len() + after.remaining == s.collected.len() + s.remaining
            &&& s.finished ==> served(files, s, t) == (files, s)
        }),
    decreases
            s.remaining,
            (if s.finished {
                0int
            } else {
                1int
            }),
{
    assert(s.collected.take(s.collected.len() as int) =~= s.collected);
    if !s.finished {
        lemma_within(s.offset, s.chunk_size);
        let start = chunk_start(s.offset as int, s.chunk_size as int) as u64;
        let after = looked_up(files, s.path, start, t);
        match good_chunk(files, s.path, start, t.instant as int) {
            Some(c) => {
                let piece = slice(c.data, within_chunk(s), needed(s) as int);
                let next = absorbed(s, piece);
                law_served(after, next, t);
                let last = served(after, next, t).1;
                assert(last.collected.take(s.collected.len() as int) =~= next.collected.take(
                    s.collected.len() as int,
                ));
                assert(next.collected.take(s.collected.len() as int) =~= s.collected);
            },
            None => {},
        }
    }
}

/// A read begins with nothing, wants all that was asked for, and is over at once
/// only where that is nothing.
pub proof fn law_started(path: Seq<char>, chunk_size: nat, offset: nat, size: nat)
    ensures
        started(path, chunk_size, offset, size).path == path,
        started(path, chunk_size, offset, size).chunk_size == chunk_size,
        started(path, chunk_size, offset, size).offset == offset,
        started(path, chunk_size, offset, size).remaining == size,
        started(path, chunk_size, offset, size).collected.len() == 0,
        started(path, chunk_size, offset, size).finished <==> size == 0,
{
}

/// A chunk that came gives a read its bytes from where the read stands on, in
/// order, and no others: as many as it wants, as far as the chunk has them.
pub proof fn law_replied(s: SessionView, data: Seq<u8>)
    requires
        s.chunk_size > 0,
        s.remaining > 0,
        s.offset <= u64::MAX,
        data.len() <= s.chunk_size,
    ensures
        ({
            let after = replied(s, data);
            let within = s.offset as int % s.chunk_size as int;
            let gained = after.collected.len() - s.collected.len();
            &&& after.path == s.path && after.chunk_size == s.chunk_size
            &&& 0 <= gained <= s.remaining
            &&& after.remaining == s.remaining - gained
            &&& after.collected.take(s.collected.len() as int) == s.collected
            &&& forall|i: int|
                0 <= i < gained ==> after.collected[s.collected.len() + i] == #[trigger] data[within
                    + i]
            &&& gained < s.remaining ==> within + gained >= data.len()
            &&& gained == s.remaining ==> after.finished
            &&& data.len() < s.chunk_size ==> after.finished
        }),
{
    lemma_within(s.offset, s.chunk_size);
    let after = replied(s, data);
    assert(after.collected.take(s.collected.len() as int) =~= s.collected);
}

} // verus!
