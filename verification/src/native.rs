//! Paths as an operating system reads them: what they start with, what they
//! consist of, and what becomes of a path when another one is put behind it.
//! Windows tells drives, shares and devices apart from the rest of a path, and
//! takes either slash; elsewhere there is only the one root and the one slash.

use vstd::prelude::*;
use vstd::string::*;

use crate::paths::{
    appended, driven, join_all, joined, lemma_segments_append, lemma_segments_join, lemma_segments_plain,
    lemma_split_some, name_all, naming, plain_segment, segments, slashes, to_slashes,
};
use crate::text::{
    chars_of, join, owned, replaced, same_text, split, split_char, string_of, texts,
};

verus! {

/// What is put between the parts of a path.
pub open spec fn separator(windows: bool) -> char {
    if windows {
        '\\'
    } else {
        '/'
    }
}

/// A character that separates the parts of a path.
pub open spec fn separates(c: char, windows: bool) -> bool {
    c == '/' || (windows && c == '\\')
}

/// The path is to be taken literally: in what follows only the backslash
/// separates.
pub open spec fn verbatim(path: Seq<char>) -> bool {
    &&& path.len() >= 4
    &&& path[0] == '\\'
    &&& path[1] == '\\'
    &&& path[2] == '?'
    &&& path[3] == '\\'
}

/// Where the piece that starts at `from` ends: at the next separator, or with the
/// text.
pub open spec fn piece_end(p: Seq<char>, from: int, sep: char) -> int
    decreases p.len() - from,
{
    if from >= p.len() {
        p.len() as int
    } else if p[from] == sep {
        from
    } else {
        piece_end(p, from + 1, sep)
    }
}

/// How far the machine and the share, or the device, reach that a path with two
/// leading slashes starts with: not at all where one of the two is missing.
pub open spec fn share_len(p: Seq<char>) -> int {
    let server = piece_end(p, 2, '/');
    let share = piece_end(p, server + 1, '/');
    if 2 < server && server + 1 < share {
        share
    } else {
        0
    }
}

/// How far the prefix of a literal path reaches: over a drive or another piece,
/// or over a machine and a share.
pub open spec fn verbatim_len(path: Seq<char>) -> int {
    let first = piece_end(path, 4, '\\');
    if first < path.len() && path.subrange(4, first) == "UNC"@ {
        let server = piece_end(path, first + 1, '\\');
        piece_end(path, server + 1, '\\')
    } else {
        first
    }
}

/// How much of a path says where it starts: a drive, a share or a device. Only
/// Windows knows such prefixes.
pub open spec fn prefix_len(path: Seq<char>, windows: bool) -> int {
    if !windows {
        0
    } else if verbatim(path) {
        verbatim_len(path)
    } else {
        let p = slashes(path, true);
        if p.len() >= 2 && p[0] == '/' && p[1] == '/' {
            share_len(p)
        } else if driven(p, true) {
            2
        } else {
            0
        }
    }
}

/// The path starts at a root: that of its prefix, where it has one.
pub open spec fn rooted(path: Seq<char>, windows: bool) -> bool {
    let n = prefix_len(path, windows);
    n < path.len() && separates(path[n], windows)
}

/// The path starts at a root, written or not: only behind a drive it need not.
pub open spec fn anchored(path: Seq<char>, windows: bool) -> bool {
    rooted(path, windows) || prefix_len(path, windows) > 2
}

/// The path says itself where it starts.
pub open spec fn placed(path: Seq<char>, windows: bool) -> bool {
    prefix_len(path, windows) > 0 || rooted(path, windows)
}

/// The names in a path, in order: what stands behind its prefix, without empty
/// pieces and `.`.
pub open spec fn names(path: Seq<char>, windows: bool) -> Seq<Seq<char>> {
    let rest = path.skip(prefix_len(path, windows));
    if windows && verbatim(path) {
        naming(split(rest, '\\'))
    } else {
        segments(slashes(rest, windows))
    }
}

/// The path starts with a `.` of its own.
pub open spec fn dotted(path: Seq<char>, windows: bool) -> bool {
    let rest = path.skip(prefix_len(path, windows));
    &&& !anchored(path, windows)
    &&& rest.len() > 0
    &&& rest[0] == '.'
    &&& rest.len() == 1 || separates(rest[1], windows)
}

/// What a path consists of behind its prefix and its root: a leading `.` counts.
pub open spec fn parts(path: Seq<char>, windows: bool) -> Seq<Seq<char>> {
    if dotted(path, windows) {
        seq!["."@] + names(path, windows)
    } else {
        names(path, windows)
    }
}

/// Two prefixes are the same; the letter of a drive may be a capital or not.
pub open spec fn same_prefix(a: Seq<char>, b: Seq<char>) -> bool {
    ||| verbatim(a) == verbatim(b) && slashes(a, true) == slashes(b, true)
    ||| a.len() == 2 && b.len() == 2 && driven(a, true) && driven(b, true) && (a[0] as int
        - b[0] as int == 32 || b[0] as int - a[0] as int == 32)
}

/// `path` is `base` or lies below it, part by part.
pub open spec fn under(path: Seq<char>, base: Seq<char>, windows: bool) -> bool {
    let p = prefix_len(path, windows);
    let b = prefix_len(base, windows);
    let outer = parts(base, windows);
    &&& b > 0 ==> p > 0 && same_prefix(path.take(p), base.take(b))
    &&& b == 0 && (anchored(base, windows) || outer.len() > 0) ==> p == 0
    &&& anchored(base, windows) ==> anchored(path, windows)
    &&& !anchored(base, windows) && outer.len() > 0 ==> !anchored(path, windows)
    &&& outer.len() <= parts(path, windows).len()
    &&& parts(path, windows).take(outer.len() as int) == outer
}

/// What is left of the pieces of a literal path once `.` and `..` are gone.
pub open spec fn settled(pieces: Seq<Seq<char>>) -> Seq<Seq<char>>
    decreases pieces.len(),
{
    if pieces.len() == 0 {
        Seq::empty()
    } else {
        let before = settled(pieces.drop_last());
        let last = pieces.last();
        if last.len() == 0 || last == "."@ {
            before
        } else if last == ".."@ {
            if before.len() > 0 {
                before.drop_last()
            } else {
                before
            }
        } else {
            before.push(last)
        }
    }
}

/// `rel` put behind the literal path `base`.
pub open spec fn pushed_verbatim(base: Seq<char>, rel: Seq<char>) -> Seq<char> {
    let n = prefix_len(base, true);
    let behind = split(slashes(rel, true), '/');
    let pieces = if rooted(rel, true) {
        behind
    } else {
        split(base.skip(n), '\\') + behind
    };
    base.take(n).push('\\') + join(settled(pieces), '\\')
}

/// What `rel` names when it is put behind `base`: a path with a prefix of its own
/// stands for itself, one that starts at the root keeps the prefix of `base`
/// alone, and any other goes behind it, with a separator where one is needed.
/// Behind a literal path no `.` and no `..` is left.
pub open spec fn pushed(base: Seq<char>, rel: Seq<char>, windows: bool) -> Seq<char> {
    if prefix_len(rel, windows) > 0 {
        rel
    } else if windows && verbatim(base) && rel.len() > 0 {
        pushed_verbatim(base, rel)
    } else if rooted(rel, windows) {
        base.take(prefix_len(base, windows)) + rel
    } else if base.len() == 0 || separates(base.last(), windows) || (driven(base, windows)
        && base.len() == 2) {
        base + rel
    } else {
        base.push(separator(windows)) + rel
    }
}

/// The path that names make when each is put behind the ones before it.
pub open spec fn piled(segs: Seq<Seq<char>>, windows: bool) -> Seq<char>
    decreases segs.len(),
{
    if segs.len() == 0 {
        Seq::empty()
    } else {
        pushed(piled(segs.drop_last(), windows), segs.last(), windows)
    }
}

/// A piece ends within the text and not before it starts.
proof fn lemma_piece_end(p: Seq<char>, from: int, sep: char)
    ensures
        piece_end(p, from, sep) <= p.len(),
        from <= p.len() ==> from <= piece_end(p, from, sep),
        from > p.len() ==> piece_end(p, from, sep) == p.len(),
    decreases p.len() - from,
{
    if from < p.len() && p[from] != sep {
        lemma_piece_end(p, from + 1, sep);
    }
}

/// A prefix lies within its path.
pub proof fn lemma_prefix_len(path: Seq<char>, windows: bool)
    ensures
        0 <= prefix_len(path, windows) <= path.len(),
{
    let p = slashes(path, true);
    lemma_piece_end(path, 4, '\\');
    let first = piece_end(path, 4, '\\');
    lemma_piece_end(path, first + 1, '\\');
    let server = piece_end(path, first + 1, '\\');
    lemma_piece_end(path, server + 1, '\\');
    lemma_piece_end(p, 2, '/');
    let machine = piece_end(p, 2, '/');
    lemma_piece_end(p, machine + 1, '/');
}

/// Where the piece that starts at `from` ends.
fn end_of_piece(chars: &Vec<char>, from: usize, sep: char) -> (n: usize)
    ensures
        n == piece_end(chars@, from as int, sep),
        n <= chars@.len(),
{
    if from >= chars.len() {
        return chars.len();
    }
    let mut i: usize = from;
    while i < chars.len() && chars[i] != sep
        invariant
            i <= chars@.len(),
            piece_end(chars@, i as int, sep) == piece_end(chars@, from as int, sep),
        decreases chars@.len() - i,
    {
        i += 1;
    }
    i
}

/// Whether the path is to be taken literally.
fn is_verbatim(chars: &Vec<char>) -> (r: bool)
    ensures
        r == verbatim(chars@),
{
    chars.len() >= 4 && chars[0] == '\\' && chars[1] == '\\' && chars[2] == '?' && chars[3] == '\\'
}

/// How much of a path says where it starts.
fn len_of_prefix(path: &str, windows: bool) -> (n: usize)
    ensures
        n == prefix_len(path@, windows),
        n <= path@.len(),
{
    proof {
        lemma_prefix_len(path@, windows);
    }
    if !windows {
        return 0;
    }
    let chars = chars_of(path);
    if is_verbatim(&chars) {
        let first: usize = end_of_piece(&chars, 4, '\\');
        proof {
            lemma_piece_end(chars@, 4, '\\');
        }
        let lead = string_of(&chars, 4, first);
        assert(lead@ =~= path@.subrange(4, first as int));
        if first < chars.len() && same_text(lead.as_str(), "UNC") {
            let server: usize = end_of_piece(&chars, first + 1, '\\');
            if server < chars.len() {
                return end_of_piece(&chars, server + 1, '\\');
            }
            proof {
                lemma_piece_end(chars@, server as int + 1, '\\');
            }
            return chars.len();
        }
        return first;
    }
    let forward = to_slashes(path, true);
    let p = chars_of(forward.as_str());
    if p.len() >= 2 && p[0] == '/' && p[1] == '/' {
        let server: usize = end_of_piece(&p, 2, '/');
        proof {
            lemma_piece_end(p@, 2, '/');
            lemma_piece_end(p@, server as int + 1, '/');
        }
        if server <= 2 || server >= p.len() {
            return 0;
        }
        let share: usize = end_of_piece(&p, server + 1, '/');
        return if server + 1 < share {
            share
        } else {
            0
        };
    }
    if p.len() >= 2 && p[1] == ':' {
        let c: char = p[0];
        if ('a' <= c && c <= 'z') || ('A' <= c && c <= 'Z') {
            return 2;
        }
    }
    0
}

/// A path taken apart.
struct Taken {
    prefix: String,
    rest: String,
    verbatim: bool,
    rooted: bool,
    anchored: bool,
}

impl Taken {
    /// What was taken apart is `path`.
    spec fn of(&self, path: Seq<char>, windows: bool) -> bool {
        let n = prefix_len(path, windows);
        &&& self.prefix@ == path.take(n)
        &&& self.rest@ == path.skip(n)
        &&& self.verbatim == (windows && verbatim(path))
        &&& self.rooted == rooted(path, windows)
        &&& self.anchored == anchored(path, windows)
    }
}

/// Whether a character separates the parts of a path.
fn is_separator(c: char, windows: bool) -> (r: bool)
    ensures
        r == separates(c, windows),
{
    c == '/' || (windows && c == '\\')
}

/// Takes a path apart.
fn take_apart(path: &str, windows: bool) -> (t: Taken)
    ensures
        t.of(path@, windows),
{
    let n: usize = len_of_prefix(path, windows);
    let chars = chars_of(path);
    let len: usize = chars.len();
    let prefix = string_of(&chars, 0, n);
    let rest = string_of(&chars, n, len);
    assert(prefix@ =~= path@.take(n as int));
    assert(rest@ =~= path@.skip(n as int));
    let rooted = n < len && is_separator(chars[n], windows);
    Taken {
        prefix,
        rest,
        verbatim: windows && is_verbatim(&chars),
        rooted,
        anchored: rooted || n > 2,
    }
}

/// Whether the path says itself where it starts.
pub fn is_placed(path: &str, windows: bool) -> (r: bool)
    ensures
        r == placed(path@, windows),
        !windows ==> (r <==> path@.len() > 0 && path@[0] == '/'),
{
    proof {
        lemma_prefix_len(path@, windows);
    }
    let t = take_apart(path, windows);
    t.rooted || t.prefix.as_str().unicode_len() > 0
}

/// The names in a path.
pub fn names_of(path: &str, windows: bool) -> (r: Vec<String>)
    ensures
        texts(r@) == names(path@, windows),
        !windows ==> texts(r@) == segments(path@),
{
    proof {
        law_read_plainly(path@);
    }
    let t = take_apart(path, windows);
    if t.verbatim {
        name_all(&split_char(t.rest.as_str(), '\\'))
    } else {
        let forward = to_slashes(t.rest.as_str(), windows);
        name_all(&split_char(forward.as_str(), '/'))
    }
}

/// What a path consists of behind its prefix and its root.
fn parts_of(path: &str, windows: bool) -> (r: Vec<String>)
    ensures
        texts(r@) == parts(path@, windows),
{
    let t = take_apart(path, windows);
    let mut all = names_of(path, windows);
    let rest = chars_of(t.rest.as_str());
    if !t.anchored && rest.len() > 0 && rest[0] == '.' && (rest.len() == 1 || is_separator(
        rest[1],
        windows,
    )) {
        let mut r: Vec<String> = Vec::new();
        r.push(owned("."));
        let ghost front = r@;
        let ghost behind = all@;
        r.append(&mut all);
        assert(r@ =~= front + behind);
        assert(texts(front) =~= seq!["."@]);
        assert(texts(r@) =~= texts(front) + texts(behind));
        r
    } else {
        all
    }
}

/// Whether two prefixes are the same.
fn is_same_prefix(a: &str, b: &str) -> (r: bool)
    ensures
        r == same_prefix(a@, b@),
{
    let x = chars_of(a);
    let y = chars_of(b);
    let forward = to_slashes(a, true);
    let other = to_slashes(b, true);
    if is_verbatim(&x) == is_verbatim(&y) && same_text(forward.as_str(), other.as_str()) {
        return true;
    }
    if x.len() != 2 || y.len() != 2 || x[1] != ':' || y[1] != ':' {
        return false;
    }
    let c: char = x[0];
    let d: char = y[0];
    let capital = 'A' <= c && c <= 'Z' && 'a' <= d && d <= 'z' && d as u32 - c as u32 == 32;
    let small = 'a' <= c && c <= 'z' && 'A' <= d && d <= 'Z' && c as u32 - d as u32 == 32;
    capital || small
}

/// Whether `path` is `base` or lies below it, part by part.
pub fn is_under(path: &str, base: &str, windows: bool) -> (r: bool)
    ensures
        r == under(path@, base@, windows),
        !windows && r && base@.len() > 0 && base@[0] == '/' ==> path@.len() > 0 && path@[0] == '/'
            && segments(base@).len() <= segments(path@).len() && segments(path@).take(
            segments(base@).len() as int,
        ) == segments(base@),
        !windows && base@.len() > 0 && base@[0] == '/' && path@.len() > 0 && path@[0] == '/' && segments(
            base@,
        ).len() <= segments(path@).len() && segments(path@).take(segments(base@).len() as int) == segments(
            base@,
        ) ==> r,
{
    proof {
        law_read_plainly(path@);
        law_read_plainly(base@);
    }
    let p = take_apart(path, windows);
    let b = take_apart(base, windows);
    let inner = parts_of(path, windows);
    let outer = parts_of(base, windows);
    proof {
        lemma_prefix_len(path@, windows);
        lemma_prefix_len(base@, windows);
        assert(texts(inner@).len() == inner@.len());
        assert(texts(outer@).len() == outer@.len());
    }
    let prefixed = p.prefix.as_str().unicode_len() > 0;
    if b.prefix.as_str().unicode_len() > 0 {
        if !prefixed || !is_same_prefix(p.prefix.as_str(), b.prefix.as_str()) {
            return false;
        }
    } else if prefixed && (b.anchored || outer.len() > 0) {
        return false;
    }
    if b.anchored && !p.anchored {
        return false;
    }
    if !b.anchored && outer.len() > 0 && p.anchored {
        return false;
    }
    if outer.len() > inner.len() {
        return false;
    }
    for i in 0..outer.len()
        invariant
            texts(inner@) == parts(path@, windows),
            texts(outer@) == parts(base@, windows),
            outer@.len() <= inner@.len(),
            forall|k: int| 0 <= k < i ==> texts(inner@)[k] == texts(outer@)[k],
    {
        if !same_text(inner[i].as_str(), outer[i].as_str()) {
            proof {
                law_read_plainly(path@);
                law_read_plainly(base@);
                assert(texts(inner@)[i as int] != texts(outer@)[i as int]);
                assert(texts(inner@).take(outer@.len() as int)[i as int] != texts(
                    outer@,
                )[i as int]);
            }
            return false;
        }
    }
    assert(texts(inner@).take(outer@.len() as int) =~= texts(outer@));
    true
}

/// What is left of the pieces of a literal path.
fn settle_all(pieces: &Vec<String>) -> (r: Vec<String>)
    ensures
        texts(r@) == settled(texts(pieces@)),
{
    let mut r: Vec<String> = Vec::new();
    assert(texts(pieces@).take(0) =~= Seq::<Seq<char>>::empty());
    assert(texts(r@) =~= Seq::<Seq<char>>::empty());
    for i in 0..pieces.len()
        invariant
            texts(r@) == settled(texts(pieces@).take(i as int)),
    {
        let ghost done = texts(r@);
        assert(texts(pieces@).take(i as int + 1).drop_last() =~= texts(pieces@).take(i as int));
        assert(texts(pieces@).take(i as int + 1).last() == pieces@[i as int]@);
        assert(done.len() == r@.len());
        let piece = pieces[i].clone();
        if piece.as_str().unicode_len() == 0 || same_text(piece.as_str(), ".") {
        } else if same_text(piece.as_str(), "..") {
            if r.len() > 0 {
                r.pop();
                assert(texts(r@) =~= done.drop_last());
            }
        } else {
            r.push(piece);
            assert(texts(r@) =~= done.push(piece@));
        }
    }
    assert(texts(pieces@).take(pieces@.len() as int) =~= texts(pieces@));
    r
}

/// What `rel` names when it is put behind `base`.
pub fn push_path(base: &str, rel: &str, windows: bool) -> (r: String)
    ensures
        r@ == pushed(base@, rel@, windows),
        !windows && rel@.len() > 0 && rel@[0] == '/' ==> r@ == rel@,
        !windows && !(rel@.len() > 0 && rel@[0] == '/') ==> r@.len() >= base@.len() + rel@.len()
            && r@.take(base@.len() as int) == base@ && r@.skip(r@.len() - rel@.len()) == rel@,
{
    proof {
        law_pushed(base@, rel@);
    }
    let b = take_apart(base, windows);
    let t = take_apart(rel, windows);
    proof {
        lemma_prefix_len(base@, windows);
        lemma_prefix_len(rel@, windows);
    }
    if t.prefix.as_str().unicode_len() > 0 {
        return owned(rel);
    }
    if b.verbatim && rel.unicode_len() > 0 {
        let forward = to_slashes(rel, true);
        let mut behind = split_char(forward.as_str(), '/');
        let pieces = if t.rooted {
            behind
        } else {
            let mut all = split_char(b.rest.as_str(), '\\');
            let ghost front = all@;
            let ghost back = behind@;
            all.append(&mut behind);
            assert(all@ =~= front + back);
            assert(texts(all@) =~= texts(front) + texts(back));
            all
        };
        let mut r = b.prefix;
        r.push('\\');
        r.append(join_all(&settle_all(&pieces), '\\').as_str());
        return r;
    }
    if t.rooted {
        let mut r = b.prefix;
        r.append(rel);
        return r;
    }
    let mut r = owned(base);
    let len: usize = base.unicode_len();
    let bare = len == 2 && b.prefix.as_str().unicode_len() == 2;
    if len > 0 && !is_separator(base.get_char(len - 1), windows) && !bare {
        r.push(if windows {
            '\\'
        } else {
            '/'
        });
    }
    r.append(rel);
    r
}

/// The path that names make when each is put behind the ones before it.
pub fn pile_up(segs: &Vec<String>, windows: bool) -> (r: String)
    ensures
        r@ == piled(texts(segs@), windows),
{
    let mut r = String::new();
    assert(texts(segs@).take(0) =~= Seq::<Seq<char>>::empty());
    for i in 0..segs.len()
        invariant
            r@ == piled(texts(segs@).take(i as int), windows),
    {
        let ghost head = texts(segs@).take(i as int + 1);
        assert(head.drop_last() =~= texts(segs@).take(i as int));
        assert(head.last() == segs@[i as int]@);
        r = push_path(r.as_str(), segs[i].as_str(), windows);
    }
    assert(texts(segs@).take(segs@.len() as int) =~= texts(segs@));
    r
}

/// The path does not start with two separators: it starts with a drive, or has no
/// prefix.
pub open spec fn plain_root(path: Seq<char>, windows: bool) -> bool {
    windows ==> !(path.len() >= 2 && separates(path[0], true) && separates(path[1], true))
}

/// The path is to be taken literally, or one of the names in it is a drive.
pub open spec fn driven_names(path: Seq<char>, windows: bool) -> bool {
    ||| windows && verbatim(path)
    ||| exists|i: int|
        0 <= i < names(path, windows).len() && driven(#[trigger] names(path, windows)[i], windows)
}

/// A name holds nothing that separates, and is no drive.
pub open spec fn plain_name(s: Seq<char>, windows: bool) -> bool {
    plain_segment(s) && !driven(s, windows) && (windows ==> !s.contains('\\'))
}

/// The pieces of a text hold no character that the text does not hold.
proof fn lemma_pieces_within(s: Seq<char>, sep: char, c: char)
    requires
        !s.contains(c),
    ensures
        forall|i: int| 0 <= i < split(s, sep).len() ==> !(#[trigger] split(s, sep)[i]).contains(c),
    decreases s.len(),
{
    if s.len() > 0 {
        let before = split(s.drop_last(), sep);
        assert forall|k: int| 0 <= k < s.drop_last().len() implies s.drop_last()[k] != c by {
            assert(s[k] != c);
        }
        lemma_pieces_within(s.drop_last(), sep, c);
        lemma_split_some(s.drop_last(), sep);
        assert(s[s.len() - 1] != c);
        assert forall|i: int| 0 <= i < split(s, sep).len() implies !(#[trigger] split(
            s,
            sep,
        )[i]).contains(c) by {
            if s.last() == sep {
                if i < before.len() {
                    assert(split(s, sep)[i] == before[i]);
                }
            } else if i < before.len() - 1 {
                assert(split(s, sep)[i] == before[i]);
            } else {
                let grown = before.last().push(s.last());
                assert(split(s, sep)[i] == grown);
                assert(!before[before.len() - 1].contains(c));
                if grown.contains(c) {
                    let k = choose|k: int| 0 <= k < grown.len() && grown[k] == c;
                    assert(before.last()[k] == c);
                }
            }
        }
    }
}

/// Naming pieces hold no character that no piece holds.
proof fn lemma_naming_without(pieces: Seq<Seq<char>>, c: char)
    requires
        forall|i: int| 0 <= i < pieces.len() ==> !(#[trigger] pieces[i]).contains(c),
    ensures
        forall|i: int| 0 <= i < naming(pieces).len() ==> !(#[trigger] naming(pieces)[i]).contains(c),
    decreases pieces.len(),
{
    if pieces.len() > 0 {
        let head = pieces.drop_last();
        assert forall|i: int| 0 <= i < head.len() implies !(#[trigger] head[i]).contains(c) by {
            assert(head[i] == pieces[i]);
        }
        lemma_naming_without(head, c);
        assert(!pieces[pieces.len() - 1].contains(c));
        assert forall|i: int| 0 <= i < naming(pieces).len() implies !(#[trigger] naming(
            pieces,
        )[i]).contains(c) by {
            if i < naming(head).len() {
                assert(naming(pieces)[i] == naming(head)[i]);
            }
        }
    }
}

/// The names in a path are names.
pub proof fn lemma_names_plain(path: Seq<char>, windows: bool)
    requires
        !driven_names(path, windows),
    ensures
        forall|i: int|
            0 <= i < names(path, windows).len() ==> plain_name(
                #[trigger] names(path, windows)[i],
                windows,
            ),
{
    let rest = slashes(path.skip(prefix_len(path, windows)), windows);
    lemma_segments_plain(rest);
    if windows {
        assert forall|k: int| 0 <= k < rest.len() implies rest[k] != '\\' by {
        }
        lemma_pieces_within(rest, '/', '\\');
        lemma_naming_without(split(rest, '/'), '\\');
    }
}

/// What joined names start and end with.
proof fn lemma_join_ends(segs: Seq<Seq<char>>, sep: char)
    requires
        segs.len() > 0,
        forall|i: int| 0 <= i < segs.len() ==> (#[trigger] segs[i]).len() > 0,
    ensures
        join(segs, sep).len() > 0,
        join(segs, sep)[0] == segs[0][0],
        join(segs, sep).last() == segs.last().last(),
        join(segs, sep).len() >= 2 ==> join(segs, sep)[1] == (if segs[0].len() >= 2 {
            segs[0][1]
        } else {
            sep
        }),
    decreases segs.len(),
{
    if segs.len() > 1 {
        let head = segs.drop_last();
        assert forall|i: int| 0 <= i < head.len() implies (#[trigger] head[i]).len() > 0 by {
            assert(head[i] == segs[i]);
        }
        lemma_join_ends(head, sep);
        assert(segs[segs.len() - 1].len() > 0);
        assert(head[0] == segs[0]);
        if head.len() > 1 {
            assert(join(head, sep).len() >= 2) by {
                assert(join(head, sep) == join(head.drop_last(), sep).push(sep) + head.last());
                assert(head[head.len() - 1].len() > 0);
            }
        }
    } else {
        assert(segs[0].len() > 0);
    }
}

/// A name says not itself where it starts.
proof fn lemma_name_free(s: Seq<char>, windows: bool)
    requires
        plain_name(s, windows),
    ensures
        prefix_len(s, windows) == 0,
        !rooted(s, windows),
{
    assert(s[0] != '/') by {
        if s[0] == '/' {
            assert(s.contains('/'));
        }
    }
    if windows {
        assert(s[0] != '\\') by {
            if s[0] == '\\' {
                assert(s.contains('\\'));
            }
        }
        let p = slashes(s, true);
        assert(p[0] == s[0]);
        if driven(p, true) {
            assert(p[1] == ':');
            assert(s[1] == ':' || s[1] == '\\');
        }
    }
}

/// Joined names say not themselves where they start.
proof fn lemma_join_free(segs: Seq<Seq<char>>, windows: bool)
    requires
        segs.len() > 0,
        forall|i: int| 0 <= i < segs.len() ==> plain_name(#[trigger] segs[i], windows),
    ensures
        ({
            let rel = join(segs, separator(windows));
            &&& rel.len() > 0
            &&& !separates(rel[0], windows)
            &&& !separates(rel.last(), windows)
            &&& prefix_len(rel, windows) == 0
            &&& !rooted(rel, windows)
            &&& !(driven(rel, windows))
            &&& !verbatim(rel) || !windows
        }),
{
    let sep = separator(windows);
    let rel = join(segs, sep);
    assert forall|i: int| 0 <= i < segs.len() implies (#[trigger] segs[i]).len() > 0 by {
        assert(plain_name(segs[i], windows));
    }
    lemma_join_ends(segs, sep);
    let first = segs[0];
    let last = segs[segs.len() - 1];
    assert(plain_name(first, windows));
    assert(plain_name(last, windows));
    assert(first.contains(first[0]));
    assert(last.contains(last[last.len() - 1]));
    if windows {
        let p = slashes(rel, true);
        assert(p[0] == rel[0]);
        if rel.len() >= 2 {
            assert(p[1] == rel[1] || rel[1] == '\\');
        }
    }
}

/// Names put behind one another are joined.
proof fn lemma_piled_plain(segs: Seq<Seq<char>>, windows: bool)
    requires
        forall|i: int| 0 <= i < segs.len() ==> plain_name(#[trigger] segs[i], windows),
    ensures
        piled(segs, windows) == join(segs, separator(windows)),
    decreases segs.len(),
{
    if segs.len() > 0 {
        let head = segs.drop_last();
        let last = segs[segs.len() - 1];
        assert forall|i: int| 0 <= i < head.len() implies plain_name(
            #[trigger] head[i],
            windows,
        ) by {
            assert(head[i] == segs[i]);
        }
        lemma_piled_plain(head, windows);
        assert(plain_name(last, windows));
        lemma_name_free(last, windows);
        if head.len() == 0 {
            assert(Seq::<char>::empty() + last =~= last);
            assert(piled(head, windows) =~= Seq::<char>::empty());
        } else {
            lemma_join_free(head, windows);
        }
    }
}

/// Joined with one slash or the other, names read the same.
proof fn lemma_join_slashes(segs: Seq<Seq<char>>, windows: bool)
    requires
        forall|i: int| 0 <= i < segs.len() ==> plain_name(#[trigger] segs[i], windows),
    ensures
        slashes(join(segs, separator(windows)), windows) == join(segs, '/'),
    decreases segs.len(),
{
    if windows {
        if segs.len() > 0 {
            let last = segs[segs.len() - 1];
            assert(plain_name(last, windows));
            assert(replaced(last, '\\', '/') =~= last) by {
                assert forall|k: int| 0 <= k < last.len() implies last[k] != '\\' by {
                    if last[k] == '\\' {
                        assert(last.contains('\\'));
                    }
                }
            }
        }
        if segs.len() > 1 {
            let head = segs.drop_last();
            assert forall|i: int| 0 <= i < head.len() implies plain_name(
                #[trigger] head[i],
                windows,
            ) by {
                assert(head[i] == segs[i]);
            }
            lemma_join_slashes(head, windows);
            let start = join(head, '\\');
            assert(replaced(start.push('\\') + segs.last(), '\\', '/') =~= replaced(
                start,
                '\\',
                '/',
            ).push('/') + replaced(segs.last(), '\\', '/'));
        } else {
            assert(slashes(join(segs, '\\'), true) =~= join(segs, '/'));
        }
    }
}

/// Names put below a directory go behind its names.
pub proof fn lemma_pushed_below(root: Seq<char>, segs: Seq<Seq<char>>, windows: bool)
    requires
        plain_root(root, windows),
        forall|i: int| 0 <= i < segs.len() ==> plain_name(#[trigger] segs[i], windows),
    ensures
        ({
            let full = pushed(root, piled(segs, windows), windows);
            &&& names(full, windows) == names(root, windows) + segs
            &&& under(full, root, windows)
            &&& !windows ==> full == appended(root, join(segs, '/'))
        }),
{
    let sep = separator(windows);
    let rel = join(segs, sep);
    let full = pushed(root, rel, windows);
    let n = prefix_len(root, windows);
    lemma_piled_plain(segs, windows);
    lemma_join_slashes(segs, windows);
    lemma_prefix_len(root, windows);
    if segs.len() > 0 {
        lemma_join_free(segs, windows);
    }
    assert(n == 0 || (n == 2 && driven(root, windows))) by {
        if windows {
            let p = slashes(root, true);
            if p.len() >= 2 {
                assert(p[0] == '/' ==> separates(root[0], true));
                assert(p[1] == '/' ==> separates(root[1], true));
            }
            if driven(p, true) {
                assert(root[0] == p[0] && root[1] == p[1]);
            }
        }
    }
    assert(prefix_len(full, windows) == n) by {
        if windows {
            let p = slashes(full, true);
            let q = slashes(root, true);
            if root.len() >= 2 {
                assert(full[0] == root[0] && full[1] == root[1]);
                assert(p[0] == q[0] && p[1] == q[1]);
            } else if root.len() == 1 {
                assert(full[0] == root[0]);
                assert(p[0] == q[0]);
                if full.len() >= 2 {
                    assert(p[1] == full[1] || full[1] == '\\');
                }
            } else {
                assert(full =~= rel);
            }
        }
    }
    let inner = root.skip(n);
    let rest = full.skip(n);
    assert(slashes(rest, windows) =~= appended(slashes(inner, windows), slashes(rel, windows)));
    assert(!(windows && verbatim(full)));
    assert(!(windows && verbatim(root)));
    assert forall|i: int| 0 <= i < segs.len() implies plain_segment(#[trigger] segs[i]) by {
        assert(plain_name(segs[i], windows));
    }
    lemma_segments_append(slashes(inner, windows), slashes(rel, windows));
    lemma_segments_join(segs);
    assert(names(full, windows) == names(root, windows) + segs);
    if inner.len() > 0 {
        assert(rest[0] == inner[0]);
        assert(full[n] == root[n]);
        if inner.len() > 1 {
            assert(rest[1] == inner[1]);
        }
        assert(dotted(full, windows) == dotted(root, windows));
    } else {
        assert(slashes(inner, windows) =~= Seq::<char>::empty());
        lemma_no_segments();
        assert(parts(root, windows).len() == 0);
    }
    assert(full.take(n) =~= root.take(n));
    assert(parts(full, windows).take(parts(root, windows).len() as int) =~= parts(root, windows));
}

/// Where there is only the one root, a path that starts at it stands for itself,
/// and any other goes behind the one it is put to.
pub proof fn law_pushed_plainly(base: Seq<char>, rel: Seq<char>)
    ensures
        pushed(base, rel, false) == joined(base, rel),
{
    assert(base.take(0) + rel =~= rel);
}

/// The empty path has no segments.
proof fn lemma_no_segments()
    ensures
        segments(Seq::<char>::empty()).len() == 0,
{
    lemma_segments_join(Seq::empty());
}

/// A path lies below itself.
pub proof fn lemma_under_itself(path: Seq<char>, windows: bool)
    ensures
        under(path, path, windows),
{
    assert(parts(path, windows).take(parts(path, windows).len() as int) =~= parts(path, windows));
}

/// Where there is only the one root, a path has no prefix, starts at the root if a
/// slash stands first, and its names are its segments.
pub proof fn law_read_plainly(path: Seq<char>)
    ensures
        prefix_len(path, false) == 0,
        placed(path, false) <==> path.len() > 0 && path[0] == '/',
        anchored(path, false) <==> path.len() > 0 && path[0] == '/',
        names(path, false) == segments(path),
        path.len() > 0 && path[0] == '/' ==> parts(path, false) == segments(path),
{
    assert(path.skip(0) =~= path);
}

/// What is put behind a path that has the one root goes behind it letter by letter,
/// unless it starts at the root, in which case it stands alone.
pub proof fn law_pushed(base: Seq<char>, rel: Seq<char>)
    ensures
        rel.len() > 0 && rel[0] == '/' ==> pushed(base, rel, false) == rel,
        !(rel.len() > 0 && rel[0] == '/') ==> {
            let r = pushed(base, rel, false);
            &&& r.len() >= base.len() + rel.len()
            &&& r.take(base.len() as int) == base
            &&& r.skip(r.len() - rel.len()) == rel
        },
{
    let r = pushed(base, rel, false);
    if rel.len() > 0 && rel[0] == '/' {
        assert(base.take(0) + rel =~= rel);
    } else {
        assert(r.take(base.len() as int) =~= base);
        assert(r.skip(r.len() - rel.len()) =~= rel);
    }
}

/// What lies below something that lies below a place lies below that place.
pub proof fn law_under_chain(inner: Seq<char>, middle: Seq<char>, outer: Seq<char>)
    requires
        absolute_plainly(outer),
        under(inner, middle, false),
        under(middle, outer, false),
    ensures
        under(inner, outer, false),
{
    law_read_plainly(inner);
    law_read_plainly(middle);
    law_read_plainly(outer);
    let n = parts(outer, false).len() as int;
    let m = parts(middle, false).len() as int;
    assert(parts(inner, false).take(m).take(n) =~= parts(inner, false).take(n));
}

/// The path starts at the one root.
pub open spec fn absolute_plainly(path: Seq<char>) -> bool {
    path.len() > 0 && path[0] == '/'
}

/// On Windows a letter with a colon behind it is a prefix of its own, and what
/// stands behind it is read apart from it.
pub proof fn law_drive(path: Seq<char>)
    requires
        path.len() >= 2,
        path[1] == ':',
        'a' <= path[0] <= 'z' || 'A' <= path[0] <= 'Z',
    ensures
        prefix_len(path, true) == 2,
        placed(path, true),
        names(path, true) == segments(slashes(path.skip(2), true)),
{
    crate::text::law_replaced(path, '\\', '/');
    let p = slashes(path, true);
    assert(p[0] == path[0]);
    assert(p[1] == path[1]);
}

/// Where a piece starts within the text it goes on as far as the next separator:
/// nothing in it separates, and what follows it does.
pub proof fn law_piece_end(p: Seq<char>, from: int, sep: char)
    requires
        0 <= from <= p.len(),
    ensures
        from <= piece_end(p, from, sep) <= p.len(),
        forall|i: int| from <= i < piece_end(p, from, sep) ==> #[trigger] p[i] != sep,
        piece_end(p, from, sep) < p.len() ==> p[piece_end(p, from, sep)] == sep,
    decreases p.len() - from,
{
    if from < p.len() && p[from] != sep {
        law_piece_end(p, from + 1, sep);
    }
}

/// What is left of the pieces of a literal path names something and goes nowhere
/// up.
pub proof fn law_settled(pieces: Seq<Seq<char>>)
    ensures
        settled(pieces).len() <= pieces.len(),
        forall|i: int|
            0 <= i < settled(pieces).len() ==> (#[trigger] settled(pieces)[i]).len() > 0
                && settled(pieces)[i] != "."@ && settled(pieces)[i] != ".."@,
        (forall|i: int|
            0 <= i < pieces.len() ==> (#[trigger] pieces[i]).len() > 0 && pieces[i] != "."@
                && pieces[i] != ".."@) ==> settled(pieces) == pieces,
    decreases pieces.len(),
{
    if pieces.len() > 0 {
        let head = pieces.drop_last();
        law_settled(head);
        let all = forall|i: int|
            0 <= i < pieces.len() ==> (#[trigger] pieces[i]).len() > 0 && pieces[i] != "."@
                && pieces[i] != ".."@;
        if all {
            assert forall|i: int| 0 <= i < head.len() implies (#[trigger] head[i]).len() > 0
                && head[i] != "."@ && head[i] != ".."@ by {
                assert(head[i] == pieces[i]);
            }
            assert(pieces[pieces.len() - 1] == pieces.last());
            assert(head.push(pieces.last()) =~= pieces);
        }
    } else {
        assert(pieces =~= Seq::empty());
    }
}

} // verus!
