//! Paths as texts: their segments, and what becomes of a request's path below
//! the directory that is served.

use vstd::prelude::*;
use vstd::string::*;

use crate::native::{
    driven_names, is_placed, is_under, lemma_names_plain, lemma_pushed_below, lemma_under_itself,
    names, names_of, pile_up, piled, placed, plain_root, push_path, pushed, under,
};
use crate::text::{
    find_last, join, last_position, law_replaced, law_trim_both, law_trim_end, law_trim_start, owned, replace_char, replaced, same_text, split, split_char,
    texts, trim_both, trim_char, trim_end, trim_end_char, trim_start, trim_start_char,
};

verus! {

/// The pieces that name something: neither empty nor `.`.
pub open spec fn naming(pieces: Seq<Seq<char>>) -> Seq<Seq<char>>
    decreases pieces.len(),
{
    if pieces.len() == 0 {
        Seq::empty()
    } else {
        let before = naming(pieces.drop_last());
        if pieces.last().len() == 0 || pieces.last() == "."@ {
            before
        } else {
            before.push(pieces.last())
        }
    }
}

/// The segments of a path, in order: what stands between slashes, without empty
/// pieces and `.`.
pub open spec fn segments(path: Seq<char>) -> Seq<Seq<char>> {
    naming(split(path, '/'))
}

/// The path starts at the root.
pub open spec fn absolute(path: Seq<char>) -> bool {
    path.len() > 0 && path[0] == '/'
}

/// One of the names in a path goes up.
pub open spec fn climbs(path: Seq<char>, windows: bool) -> bool {
    names(path, windows).contains(".."@)
}

/// `rel` appended to `base`, with a slash between them where `base` is not empty
/// and does not end in one.
pub open spec fn appended(base: Seq<char>, rel: Seq<char>) -> Seq<char> {
    if base.len() == 0 || base.last() == '/' {
        base + rel
    } else {
        base.push('/') + rel
    }
}

/// The pieces that name something.
pub fn name_all(pieces: &Vec<String>) -> (r: Vec<String>)
    ensures
        texts(r@) == naming(texts(pieces@)),
{
    let mut r: Vec<String> = Vec::new();
    assert(texts(pieces@).take(0) =~= Seq::<Seq<char>>::empty());
    assert(texts(r@) =~= Seq::<Seq<char>>::empty());
    for i in 0..pieces.len()
        invariant
            texts(r@) == naming(texts(pieces@).take(i as int)),
    {
        let ghost done = texts(r@);
        assert(texts(pieces@).take(i as int + 1).drop_last() =~= texts(pieces@).take(i as int));
        assert(texts(pieces@).take(i as int + 1).last() == pieces@[i as int]@);
        let piece = pieces[i].clone();
        if piece.as_str().unicode_len() != 0 && !same_text(piece.as_str(), ".") {
            r.push(piece);
            assert(texts(r@) =~= done.push(piece@));
        }
    }
    assert(texts(pieces@).take(pieces@.len() as int) =~= texts(pieces@));
    r
}

/// The segments of a path.
pub fn segments_of(path: &str) -> (r: Vec<String>)
    ensures
        texts(r@) == segments(path@),
{
    name_all(&split_char(path, '/'))
}

/// The texts with a separator between them.
pub fn join_all(pieces: &Vec<String>, sep: char) -> (r: String)
    ensures
        r@ == join(texts(pieces@), sep),
{
    let mut r = String::new();
    assert(texts(pieces@).take(0) =~= Seq::<Seq<char>>::empty());
    for i in 0..pieces.len()
        invariant
            r@ == join(texts(pieces@).take(i as int), sep),
    {
        let ghost head = texts(pieces@).take(i as int + 1);
        assert(head.drop_last() =~= texts(pieces@).take(i as int));
        assert(head.last() == pieces@[i as int]@);
        if i > 0 {
            r.push(sep);
            r.append(pieces[i].as_str());
        } else {
            r = pieces[i].clone();
        }
    }
    assert(texts(pieces@).take(pieces@.len() as int) =~= texts(pieces@));
    r
}

/// Whether one of the texts is `..`.
fn has_dotdot(v: &Vec<String>) -> (r: bool)
    ensures
        r == texts(v@).contains(".."@),
{
    for i in 0..v.len()
        invariant
            forall|k: int| 0 <= k < i ==> (#[trigger] v@[k])@ != ".."@,
    {
        if same_text(v[i].as_str(), "..") {
            assert(texts(v@)[i as int] == ".."@);
            return true;
        }
    }
    proof {
        if texts(v@).contains(".."@) {
            let k = choose|k: int| 0 <= k < texts(v@).len() && texts(v@)[k] == ".."@;
            assert(v@[k]@ == ".."@);
        }
    }
    false
}

/// `rel` appended to `base`.
pub fn append_path(base: &str, rel: &str) -> (r: String)
    ensures
        r@ == appended(base@, rel@),
        r@.take(base@.len() as int) == base@,
        r@.skip(r@.len() - rel@.len()) == rel@,
        base@.len() == 0 || base@.last() == '/' ==> r@.len() == base@.len() + rel@.len(),
        base@.len() > 0 && base@.last() != '/' ==> r@.len() == base@.len() + 1 + rel@.len()
            && r@[base@.len() as int] == '/',
{
    let mut r = owned(base);
    let len: usize = base.unicode_len();
    if len > 0 && base.get_char(len - 1) != '/' {
        r.push('/');
    }
    r.append(rel);
    assert(r@.take(base@.len() as int) =~= base@);
    assert(r@.skip(r@.len() - rel@.len()) =~= rel@);
    r
}

/// The path with forward slashes only, on a system where either slash separates.
pub open spec fn slashes(path: Seq<char>, windows: bool) -> Seq<char> {
    if windows {
        replaced(path, '\\', '/')
    } else {
        path
    }
}

/// The path with forward slashes only, on a system where either slash separates.
pub fn to_slashes(path: &str, windows: bool) -> (r: String)
    ensures
        r@ == slashes(path@, windows),
        r@.len() == path@.len(),
        windows ==> !r@.contains('\\'),
        forall|i: int| 0 <= i < r@.len() && path@[i] != '\\' ==> #[trigger] r@[i] == path@[i],
        !windows ==> r@ == path@,
{
    proof {
        law_replaced(path@, '\\', '/');
    }
    if windows {
        replace_char(path, '\\', '/')
    } else {
        owned(path)
    }
}

/// A letter that can stand for a drive.
pub open spec fn letter(c: char) -> bool {
    'a' <= c <= 'z' || 'A' <= c <= 'Z'
}

/// The path starts with a drive, on a system that has drives.
pub open spec fn driven(path: Seq<char>, windows: bool) -> bool {
    windows && path.len() >= 2 && letter(path[0]) && path[1] == ':'
}

/// Whether the path starts with a drive, on a system that has drives.
pub fn is_driven(path: &str, windows: bool) -> (r: bool)
    ensures
        r == driven(path@, windows),
        !windows ==> !r,
        windows && path@.len() >= 2 ==> (r <==> path@[1] == ':' && (97 <= path@[0] as u32 && path@[0] as u32
            <= 122 || 65 <= path@[0] as u32 && path@[0] as u32 <= 90)),
        path@.len() < 2 ==> !r,
{
    if !windows || path.unicode_len() < 2 || path.get_char(1) != ':' {
        return false;
    }
    let c: char = path.get_char(0);
    ('a' <= c && c <= 'z') || ('A' <= c && c <= 'Z')
}

/// The names in a request's path, put together: without its leading slash, its
/// `.` and its empty pieces, and without the drive, the share or the device that
/// it may start with. A path that goes up is refused. How a path is read depends
/// on whether the server runs on Windows.
pub fn normalize_request_path(path_str: &str, windows: bool) -> (r: Result<String, String>)
    ensures
        match r {
            Ok(p) => !climbs(path_str@, windows) && p@ == piled(
                names(path_str@, windows),
                windows,
            ),
            Err(e) => climbs(path_str@, windows) && e@ == "Invalid path (.. not allowed)"@,
        },
        r is Err <==> names(path_str@, windows).contains(".."@),
{
    let all = names_of(path_str, windows);
    if has_dotdot(&all) {
        Err(owned("Invalid path (.. not allowed)"))
    } else {
        Ok(pile_up(&all, windows))
    }
}

/// What a request's path names below `root`.
pub open spec fn resolved_path(root: Seq<char>, path: Seq<char>, windows: bool) -> Seq<char> {
    pushed(root, piled(names(path, windows), windows), windows)
}

/// What a request's path names below `root`. A path that goes up is refused, and
/// so is one that leaves `root` by a name that is a drive, as only Windows has
/// them.
pub fn resolve_under_root(root: &str, path_str: &str, windows: bool) -> (r: Result<String, String>)
    ensures
        match r {
            Ok(full) => !climbs(path_str@, windows) && full@ == resolved_path(
                root@,
                path_str@,
                windows,
            ) && under(full@, root@, windows),
            Err(e) => if climbs(path_str@, windows) {
                e@ == "Invalid path (.. not allowed)"@
            } else {
                !under(resolved_path(root@, path_str@, windows), root@, windows) && e@
                    == "Invalid path escape"@
            },
        },
        names(path_str@, windows).contains(".."@) ==> r is Err,
        r matches Ok(full) ==> under(full@, root@, windows),
{
    match normalize_request_path(path_str, windows) {
        Ok(relative) => {
            let full = push_path(root, relative.as_str(), windows);
            if is_under(full.as_str(), root, windows) {
                Ok(full)
            } else {
                Err(owned("Invalid path escape"))
            }
        },
        Err(e) => Err(e),
    }
}

/// What a request's path asks for, before the file system is looked at.
#[derive(Debug)]
pub enum Candidate {
    /// Nothing that is served.
    Refused,
    /// The served directory itself.
    Root,
    /// This path, if the directory it lies in is not a way out.
    Below(String),
}

/// The request's path without one leading slash.
pub open spec fn unrooted(request: Seq<char>) -> Seq<char> {
    if absolute(request) {
        request.drop_first()
    } else {
        request
    }
}

/// Even without its leading slash the path says itself where it starts, or it
/// goes up.
pub open spec fn escapes(request: Seq<char>, windows: bool) -> bool {
    placed(unrooted(request), windows) || climbs(unrooted(request), windows)
}

/// The path that a request names below `root`.
pub open spec fn candidate_path(root: Seq<char>, request: Seq<char>, windows: bool) -> Seq<char> {
    resolved_path(root, unrooted(request), windows)
}

/// What a request's path asks for below `root_dir`. How a path is read depends on
/// whether the server runs on Windows.
pub fn safe_candidate(root_dir: &str, request_path: &str, windows: bool) -> (r: Candidate)
    ensures
        match r {
            Candidate::Root => unrooted(request_path@).len() == 0,
            Candidate::Refused => unrooted(request_path@).len() > 0 && escapes(
                request_path@,
                windows,
            ),
            Candidate::Below(p) => unrooted(request_path@).len() > 0 && !escapes(
                request_path@,
                windows,
            ) && p@ == candidate_path(root_dir@, request_path@, windows),
        },
        r is Root <==> request_path@.len() == 0 || (request_path@.len() == 1 && request_path@[0] == '/'),
        r matches Candidate::Below(_) ==> !names(unrooted(request_path@), windows).contains(".."@)
            && !placed(unrooted(request_path@), windows),
        names(unrooted(request_path@), windows).contains(".."@) && !(r is Root) ==> r is Refused,
{
    let len: usize = request_path.unicode_len();
    let trimmed = if len > 0 && request_path.get_char(0) == '/' {
        request_path.substring_char(1, len)
    } else {
        request_path
    };
    assert(trimmed@ =~= unrooted(request_path@));
    let rest: usize = trimmed.unicode_len();
    if rest == 0 {
        return Candidate::Root;
    }
    if is_placed(trimmed, windows) {
        return Candidate::Refused;
    }
    let all = names_of(trimmed, windows);
    if has_dotdot(&all) {
        return Candidate::Refused;
    }
    let relative = pile_up(&all, windows);
    Candidate::Below(push_path(root_dir, relative.as_str(), windows))
}

/// The path that a request may use, given what the file system says: the real
/// place of `root_dir` and that of the directory that the request's path lies
/// in, where they can be found. A directory that cannot be found counts as the
/// served one.
pub open spec fn safe_path(
    root: Seq<char>,
    request: Seq<char>,
    base_abs: Option<Seq<char>>,
    parent_abs: Option<Seq<char>>,
    windows: bool,
) -> Option<Seq<char>> {
    if unrooted(request).len() == 0 {
        Some(root)
    } else if escapes(request, windows) {
        None
    } else {
        match base_abs {
            None => None,
            Some(base) => {
                let parent = match parent_abs {
                    Some(p) => p,
                    None => base,
                };
                if under(parent, base, windows) {
                    Some(candidate_path(root, request, windows))
                } else {
                    None
                }
            },
        }
    }
}

/// The text of an optional string.
pub open spec fn opt_view(s: Option<&str>) -> Option<Seq<char>> {
    match s {
        Some(t) => Some(t@),
        None => None,
    }
}

/// The path that a request may use.
pub fn get_safe_path(
    root_dir: &str,
    request_path: &str,
    base_abs: Option<&str>,
    parent_abs: Option<&str>,
    windows: bool,
) -> (r: Option<String>)
    ensures
        match r {
            Some(p) => safe_path(
                root_dir@,
                request_path@,
                opt_view(base_abs),
                opt_view(parent_abs),
                windows,
            ) == Some(p@),
            None => safe_path(
                root_dir@,
                request_path@,
                opt_view(base_abs),
                opt_view(parent_abs),
                windows,
            ) is None,
        },
        request_path@.len() == 0 || (request_path@.len() == 1 && request_path@[0] == '/') ==> (r
            matches Some(p) && p@ == root_dir@),
        !(request_path@.len() == 0 || (request_path@.len() == 1 && request_path@[0] == '/')) ==> (base_abs
            is None ==> r is None),
        !(request_path@.len() == 0 || (request_path@.len() == 1 && request_path@[0] == '/')) ==> (names(
            unrooted(request_path@),
            windows,
        ).contains(".."@) ==> r is None),
        !(request_path@.len() == 0 || (request_path@.len() == 1 && request_path@[0] == '/')) ==> (base_abs
            matches Some(base) ==> (parent_abs matches Some(parent) ==> (!under(
            parent@,
            base@,
            windows,
        ) ==> r is None))),
{
    match safe_candidate(root_dir, request_path, windows) {
        Candidate::Root => Some(owned(root_dir)),
        Candidate::Refused => None,
        Candidate::Below(candidate) => match base_abs {
            None => None,
            Some(base) => {
                let parent = match parent_abs {
                    Some(p) => p,
                    None => base,
                };
                if is_under(parent, base, windows) {
                    Some(candidate)
                } else {
                    None
                }
            },
        },
    }
}

/// Splitting at a separator splits what stands before it and what stands behind
/// it.
pub proof fn lemma_split_at(a: Seq<char>, b: Seq<char>, sep: char)
    ensures
        split(a.push(sep) + b, sep) == split(a, sep) + split(b, sep),
    decreases b.len(),
{
    let whole = a.push(sep) + b;
    lemma_split_some(a, sep);
    if b.len() == 0 {
        assert(whole =~= a.push(sep));
        assert(whole.drop_last() =~= a);
        assert(split(whole, sep) =~= split(a, sep) + split(b, sep));
    } else {
        lemma_split_at(a, b.drop_last(), sep);
        lemma_split_some(b.drop_last(), sep);
        assert(whole.drop_last() =~= a.push(sep) + b.drop_last());
        assert(whole.last() == b.last());
        let shorter = split(b.drop_last(), sep);
        assert((split(a, sep) + shorter).last() == shorter.last());
        assert((split(a, sep) + shorter).drop_last() =~= split(a, sep) + shorter.drop_last());
        assert(split(whole, sep) =~= split(a, sep) + split(b, sep));
    }
}

/// There is always a piece.
pub proof fn lemma_split_some(s: Seq<char>, sep: char)
    ensures
        split(s, sep).len() > 0,
    decreases s.len(),
{
    if s.len() > 0 {
        lemma_split_some(s.drop_last(), sep);
    }
}

/// A text without the separator is its only piece.
pub proof fn lemma_split_single(s: Seq<char>, sep: char)
    requires
        !s.contains(sep),
    ensures
        split(s, sep) == seq![s],
    decreases s.len(),
{
    if s.len() > 0 {
        assert forall|c: char| s.drop_last().contains(c) implies s.contains(c) by {
            let i = choose|i: int| 0 <= i < s.drop_last().len() && s.drop_last()[i] == c;
            assert(s[i] == c);
        }
        lemma_split_single(s.drop_last(), sep);
        assert(s.contains(s.last()));
        assert(seq![s.drop_last()].drop_last() =~= Seq::<Seq<char>>::empty());
        assert(s.drop_last().push(s.last()) =~= s);
        assert(split(s, sep) =~= seq![s]);
    } else {
        assert(s =~= Seq::<char>::empty());
    }
}

/// No piece holds the separator.
pub proof fn lemma_split_pieces(s: Seq<char>, sep: char)
    ensures
        forall|i: int| 0 <= i < split(s, sep).len() ==> !(#[trigger] split(s, sep)[i]).contains(sep),
    decreases s.len(),
{
    if s.len() > 0 {
        let before = split(s.drop_last(), sep);
        lemma_split_pieces(s.drop_last(), sep);
        lemma_split_some(s.drop_last(), sep);
        assert forall|i: int| 0 <= i < split(s, sep).len() implies !(#[trigger] split(
            s,
            sep,
        )[i]).contains(sep) by {
            if s.last() == sep {
                if i < before.len() {
                    assert(split(s, sep)[i] == before[i]);
                }
            } else if i < before.len() - 1 {
                assert(split(s, sep)[i] == before[i]);
            } else {
                let grown = before.last().push(s.last());
                assert(split(s, sep)[i] == grown);
                assert(!before[before.len() - 1].contains(sep));
                if grown.contains(sep) {
                    let k = choose|k: int| 0 <= k < grown.len() && grown[k] == sep;
                    assert(before.last()[k] == sep);
                }
            }
        }
    }
}

/// The naming pieces of two lists are those of the first and those of the
/// second.
proof fn lemma_naming_append(a: Seq<Seq<char>>, b: Seq<Seq<char>>)
    ensures
        naming(a + b) == naming(a) + naming(b),
    decreases b.len(),
{
    if b.len() == 0 {
        assert(a + b =~= a);
        assert(naming(a) + naming(b) =~= naming(a));
    } else {
        lemma_naming_append(a, b.drop_last());
        assert((a + b).drop_last() =~= a + b.drop_last());
        assert((a + b).last() == b.last());
        assert(naming(a + b) =~= naming(a) + naming(b));
    }
}

/// A segment is not empty, is not `.`, and holds no slash.
pub open spec fn plain_segment(s: Seq<char>) -> bool {
    s.len() > 0 && s != "."@ && !s.contains('/')
}

/// Naming pieces are pieces, and name something.
proof fn lemma_naming_plain(pieces: Seq<Seq<char>>)
    requires
        forall|i: int| 0 <= i < pieces.len() ==> !(#[trigger] pieces[i]).contains('/'),
    ensures
        forall|i: int| 0 <= i < naming(pieces).len() ==> plain_segment(#[trigger] naming(pieces)[i]),
    decreases pieces.len(),
{
    if pieces.len() > 0 {
        let head = pieces.drop_last();
        assert forall|i: int| 0 <= i < head.len() implies !(#[trigger] head[i]).contains('/') by {
            assert(head[i] == pieces[i]);
        }
        lemma_naming_plain(head);
        assert(!pieces[pieces.len() - 1].contains('/'));
        assert forall|i: int| 0 <= i < naming(pieces).len() implies plain_segment(
            #[trigger] naming(pieces)[i],
        ) by {
            if i < naming(head).len() {
                assert(naming(pieces)[i] == naming(head)[i]);
            }
        }
    }
}

/// Every segment of a path is one.
pub proof fn lemma_segments_plain(path: Seq<char>)
    ensures
        forall|i: int|
            0 <= i < segments(path).len() ==> plain_segment(#[trigger] segments(path)[i]),
{
    lemma_split_pieces(path, '/');
    lemma_naming_plain(split(path, '/'));
}

/// Joined segments are taken apart again.
pub proof fn lemma_segments_join(segs: Seq<Seq<char>>)
    requires
        forall|i: int| 0 <= i < segs.len() ==> plain_segment(#[trigger] segs[i]),
    ensures
        segments(join(segs, '/')) == segs,
    decreases segs.len(),
{
    reveal_with_fuel(naming, 3);
    if segs.len() == 0 {
        assert(split(Seq::<char>::empty(), '/') =~= seq![Seq::<char>::empty()]);
        assert(seq![Seq::<char>::empty()].drop_last() =~= Seq::<Seq<char>>::empty());
        assert(segments(join(segs, '/')) =~= segs);
    } else {
        let last = segs.last();
        assert(plain_segment(segs[segs.len() - 1]));
        lemma_split_single(last, '/');
        assert(seq![last].drop_last() =~= Seq::<Seq<char>>::empty());
        assert(naming(seq![last]) =~= seq![last]);
        if segs.len() == 1 {
            assert(join(segs, '/') == last);
            assert(segs =~= seq![last]);
        } else {
            let head = segs.drop_last();
            assert forall|i: int| 0 <= i < head.len() implies plain_segment(
                #[trigger] head[i],
            ) by {
                assert(head[i] == segs[i]);
            }
            lemma_segments_join(head);
            lemma_split_at(join(head, '/'), last, '/');
            lemma_naming_append(split(join(head, '/'), '/'), split(last, '/'));
            assert(segments(join(segs, '/')) =~= head + seq![last]);
            assert(head + seq![last] =~= segs);
        }
    }
}

/// Appending a relative path appends its segments.
pub proof fn lemma_segments_append(base: Seq<char>, rel: Seq<char>)
    ensures
        segments(appended(base, rel)) == segments(base) + segments(rel),
{
    reveal_with_fuel(naming, 3);
    if base.len() == 0 {
        assert(base + rel =~= rel);
        assert(base =~= Seq::<char>::empty());
        assert(split(base, '/') =~= seq![Seq::<char>::empty()]);
        assert(seq![Seq::<char>::empty()].drop_last() =~= Seq::<Seq<char>>::empty());
        assert(segments(base) + segments(rel) =~= segments(rel));
    } else if base.last() == '/' {
        let stem = base.drop_last();
        assert(stem.push('/') =~= base);
        lemma_split_at(stem, rel, '/');
        lemma_naming_append(split(stem, '/'), split(rel, '/'));
        lemma_split_at(stem, Seq::empty(), '/');
        assert(stem.push('/') + Seq::<char>::empty() =~= base);
        lemma_naming_append(split(stem, '/'), split(Seq::<char>::empty(), '/'));
        assert(split(Seq::<char>::empty(), '/') =~= seq![Seq::<char>::empty()]);
        assert(seq![Seq::<char>::empty()].drop_last() =~= Seq::<Seq<char>>::empty());
        assert(segments(base) =~= naming(split(stem, '/')));
    } else {
        lemma_split_at(base, rel, '/');
        lemma_naming_append(split(base, '/'), split(rel, '/'));
    }
}

/// A request whose path does not go up stays below the served directory: the
/// resolved path has the names of the directory, then those of the request, none
/// of which goes up. On Windows this leaves out paths that are to be taken
/// literally or have a drive among their names, and a directory that starts with
/// two slashes.
pub proof fn law_resolved_below(root: Seq<char>, path: Seq<char>, windows: bool)
    requires
        plain_root(root, windows),
        !driven_names(path, windows),
        !climbs(path, windows),
    ensures
        names(resolved_path(root, path, windows), windows) == names(root, windows) + names(
            path,
            windows,
        ),
        under(resolved_path(root, path, windows), root, windows),
        !names(path, windows).contains(".."@),
{
    lemma_names_plain(path, windows);
    lemma_pushed_below(root, names(path, windows), windows);
}

/// Where there is only the one root, no request whose path does not go up leaves
/// the served directory, and its segments go behind those of the directory.
pub proof fn law_resolved_plainly(root: Seq<char>, path: Seq<char>)
    requires
        !climbs(path, false),
    ensures
        resolved_path(root, path, false) == appended(root, join(segments(path), '/')),
        under(resolved_path(root, path, false), root, false),
{
    assert(path.skip(0) =~= path);
    law_resolved_below(root, path, false);
    lemma_names_plain(path, false);
    lemma_pushed_below(root, names(path, false), false);
}

/// A path that a request may use lies below the served directory. On Windows this
/// leaves out what `law_resolved_below` does.
pub proof fn law_safe_path_below(
    root: Seq<char>,
    request: Seq<char>,
    base_abs: Option<Seq<char>>,
    parent_abs: Option<Seq<char>>,
    windows: bool,
)
    requires
        plain_root(root, windows),
        !driven_names(unrooted(request), windows),
    ensures
        safe_path(root, request, base_abs, parent_abs, windows) matches Some(p) ==> under(
            p,
            root,
            windows,
        ) && (unrooted(request).len() > 0 ==> !climbs(unrooted(request), windows)),
{
    if unrooted(request).len() == 0 {
        lemma_under_itself(root, windows);
    } else if !escapes(request, windows) {
        law_resolved_below(root, unrooted(request), windows);
    }
}

/// The path with forward slashes and without leading ones.
pub open spec fn remote_path(path: Seq<char>) -> Seq<char> {
    trim_start(replaced(path, '\\', '/'), '/')
}

/// The path with forward slashes and without leading ones.
pub fn normalize_remote_path(path: &str) -> (r: String)
    ensures
        r@ == remote_path(path@),
        !r@.contains('\\'),
        r@.len() > 0 ==> r@[0] != '/',
{
    let forward = replace_char(path, '\\', '/');
    proof {
        law_remote_path(path@);
    }
    owned(trim_start_char(forward.as_str(), '/'))
}

/// The directory that `path` lies in, and the name it has there.
pub open spec fn parent_and_name(path: Seq<char>) -> (Seq<char>, Seq<char>) {
    let normalized = trim_both(path, '/');
    match last_position(normalized, '/') {
        Some(i) => (
            if i == 0 {
                "/"@
            } else {
                "/"@ + normalized.take(i)
            },
            normalized.skip(i + 1),
        ),
        None => ("/"@, normalized),
    }
}

/// The directory that `path` lies in, and the name it has there. The root has
/// the empty name.
pub fn split_parent_and_name(path: &str) -> (r: (String, String))
    ensures
        (r.0@, r.1@) == parent_and_name(path@),
        !r.1@.contains('/'),
        r.0@.len() > 0 && r.0@[0] == '/',
        trim_both(path@, '/').len() == 0 ==> r.1@.len() == 0 && r.0@ == "/"@,
        trim_both(path@, '/').len() > 0 ==> r.1@.len() > 0,
{
    let normalized = trim_char(path, '/');
    proof {
        reveal_strlit("/");
        law_parent_and_name_rejoin(path@);
        law_trim_both(path@, '/');
    }
    match find_last(normalized, '/') {
        Some(i) => {
            let len: usize = normalized.unicode_len();
            proof {
                lemma_last_position(normalized@, '/');
            }
            let name = owned(normalized.substring_char(i + 1, len));
            assert(name@ =~= normalized@.skip(i as int + 1));
            let mut parent = owned("/");
            if i > 0 {
                parent.append(normalized.substring_char(0, i));
                assert(normalized@.subrange(0, i as int) =~= normalized@.take(i as int));
            }
            (parent, name)
        },
        None => (owned("/"), owned(normalized)),
    }
}

/// The last position of a character lies within the text and holds it; nothing
/// behind it does.
pub proof fn lemma_last_position(s: Seq<char>, c: char)
    ensures
        match last_position(s, c) {
            Some(i) => 0 <= i < s.len() && s[i] == c && forall|k: int|
                i < k < s.len() ==> s[k] != c,
            None => !s.contains(c),
        },
    decreases s.len(),
{
    if s.len() > 0 && s.last() != c {
        lemma_last_position(s.drop_last(), c);
        match last_position(s.drop_last(), c) {
            Some(i) => {
                assert(s[i] == s.drop_last()[i]);
                assert forall|k: int| i < k < s.len() implies s[k] != c by {
                    if k < s.len() - 1 {
                        assert(s.drop_last()[k] == s[k]);
                    }
                }
            },
            None => {
                if s.contains(c) {
                    let k = choose|k: int| 0 <= k < s.len() && s[k] == c;
                    assert(s.drop_last()[k] == c);
                }
            },
        }
    }
}

/// A text without leading separators starts with something else.
proof fn lemma_trim_start_first(s: Seq<char>, c: char)
    ensures
        trim_start(s, c).len() > 0 ==> trim_start(s, c)[0] != c,
    decreases s.len(),
{
    if s.len() > 0 && s[0] == c {
        lemma_trim_start_first(s.drop_first(), c);
    }
}

/// Trimming the end leaves a beginning.
proof fn lemma_trim_end_prefix(s: Seq<char>, c: char)
    ensures
        trim_end(s, c).len() <= s.len(),
        trim_end(s, c) == s.take(trim_end(s, c).len() as int),
    decreases s.len(),
{
    if s.len() > 0 && s.last() == c {
        lemma_trim_end_prefix(s.drop_last(), c);
        assert(s.drop_last().take(trim_end(s, c).len() as int) =~= s.take(
            trim_end(s, c).len() as int,
        ));
    } else {
        assert(s.take(s.len() as int) =~= s);
    }
}

/// Directory and name make up the path again: with a slash between them, unless
/// the directory is the root, they are the path with one leading slash and no
/// trailing one. The name holds no slash.
pub proof fn law_parent_and_name_rejoin(path: Seq<char>)
    ensures
        ({
            let (parent, name) = parent_and_name(path);
            &&& (if parent == "/"@ {
                parent + name
            } else {
                parent + "/"@ + name
            }) == "/"@ + trim_both(path, '/')
            &&& !name.contains('/')
        }),
{
    reveal_strlit("/");
    let normalized = trim_both(path, '/');
    lemma_last_position(normalized, '/');
    lemma_trim_start_first(path, '/');
    lemma_trim_end_prefix(trim_start(path, '/'), '/');
    match last_position(normalized, '/') {
        Some(i) => {
            let name = normalized.skip(i + 1);
            if name.contains('/') {
                let k = choose|k: int| 0 <= k < name.len() && name[k] == '/';
                assert(normalized[k + i + 1] == '/');
            }
            assert(normalized[0] == trim_start(path, '/')[0]);
            assert(i > 0);
            let parent = "/"@ + normalized.take(i);
            assert(parent.len() > 1);
            assert(parent + "/"@ + name =~= "/"@ + normalized);
        },
        None => {},
    }
}

/// The path with forward slashes and without any at its ends.
pub open spec fn bare_path(path: Seq<char>) -> Seq<char> {
    trim_both(replaced(path, '\\', '/'), '/')
}

/// The path with forward slashes and without any at its ends.
pub fn normalize_path(path: &str) -> (r: String)
    ensures
        r@ == bare_path(path@),
        !r@.contains('\\'),
        r@.len() > 0 ==> r@[0] != '/' && r@.last() != '/',
{
    let forward = replace_char(path, '\\', '/');
    proof {
        law_bare_path(path@);
    }
    owned(trim_char(forward.as_str(), '/'))
}

/// `name` below `parent`, always with a slash between them.
pub open spec fn below(parent: Seq<char>, name: Seq<char>) -> Seq<char> {
    trim_end(parent, '/') + "/"@ + name
}

/// `name` below `parent`, always with a slash between them.
pub fn path_below(parent: &str, name: &str) -> (r: String)
    ensures
        r@ == below(parent@, name@),
        r@.skip(r@.len() - name@.len()) == name@,
        r@.len() > name@.len() && r@[r@.len() - name@.len() - 1] == '/',
        parent@.len() > 0 && parent@.last() != '/' ==> r@.len() == parent@.len() + 1 + name@.len()
            && r@.take(parent@.len() as int) == parent@,
{
    let mut r = owned(trim_end_char(parent, '/'));
    r.append("/");
    r.append(name);
    proof {
        law_below(parent@, name@);
    }
    r
}

/// `name` in the directory `parent`, a relative path: just the name in the root.
pub open spec fn child(parent: Seq<char>, name: Seq<char>) -> Seq<char> {
    if parent.len() == 0 || parent == "/"@ {
        name
    } else {
        below(parent, name)
    }
}

/// `name` in the directory `parent`, a relative path: just the name in the root.
pub fn child_of(parent: &str, name: &str) -> (r: String)
    ensures
        r@ == child(parent@, name@),
        r@.skip(r@.len() - name@.len()) == name@,
        parent@.len() == 0 ==> r@ == name@,
        parent@ == "/"@ ==> r@ == name@,
        parent@.len() > 0 && parent@.last() != '/' ==> r@.len() == parent@.len() + 1 + name@.len()
            && r@.take(parent@.len() as int) == parent@ && r@[parent@.len() as int] == '/',
{
    proof {
        reveal_strlit("/");
        assert(name@.skip(0) =~= name@);
    }
    if parent.unicode_len() == 0 || same_text(parent, "/") {
        owned(name)
    } else {
        path_below(parent, name)
    }
}

/// What a path consists of: the root or a leading `.`, where it starts with one,
/// and then its segments. Paths that consist of the same name the same place.
pub open spec fn components(path: Seq<char>) -> Seq<Seq<char>> {
    if absolute(path) {
        seq!["/"@] + segments(path)
    } else if split(path, '/')[0] == "."@ {
        seq!["."@] + segments(path)
    } else {
        segments(path)
    }
}

/// What a path consists of.
pub fn components_of(path: &str) -> (r: Vec<String>)
    ensures
        texts(r@) == components(path@),
{
    let mut segs = segments_of(path);
    let pieces = split_char(path, '/');
    proof {
        lemma_split_some(path@, '/');
        assert(texts(pieces@)[0] == pieces@[0]@);
    }
    let mut r: Vec<String> = Vec::new();
    let ghost rest = texts(segs@);
    if path.unicode_len() > 0 && path.get_char(0) == '/' {
        r.push(owned("/"));
        assert(texts(r@) =~= seq!["/"@]);
    } else if same_text(pieces[0].as_str(), ".") {
        r.push(owned("."));
        assert(texts(r@) =~= seq!["."@]);
    }
    let ghost lead = texts(r@);
    let ghost parts = segs@;
    let ghost front = r@;
    r.append(&mut segs);
    assert(r@ =~= front + parts);
    assert(texts(r@) =~= lead + rest);
    assert(lead.len() == 0 ==> lead + rest =~= rest);
    r
}

/// Whether two lists of texts are the same.
pub fn same_texts(a: &Vec<String>, b: &Vec<String>) -> (r: bool)
    ensures
        r == (texts(a@) == texts(b@)),
{
    if a.len() != b.len() {
        assert(texts(a@).len() != texts(b@).len());
        return false;
    }
    for i in 0..a.len()
        invariant
            a@.len() == b@.len(),
            forall|k: int| 0 <= k < i ==> (#[trigger] a@[k])@ == b@[k]@,
    {
        if !same_text(a[i].as_str(), b[i].as_str()) {
            assert(texts(a@)[i as int] != texts(b@)[i as int]);
            return false;
        }
    }
    assert(texts(a@) =~= texts(b@));
    true
}

/// What `name` stands for in the directory `base`: a name that starts at the root
/// stands for itself.
pub open spec fn joined(base: Seq<char>, name: Seq<char>) -> Seq<char> {
    if absolute(name) {
        name
    } else {
        appended(base, name)
    }
}

/// What `name` stands for in the directory `base`.
pub fn join_path(base: &str, name: &str) -> (r: String)
    ensures
        r@ == joined(base@, name@),
        name@.len() > 0 && name@[0] == '/' ==> r@ == name@,
        !(name@.len() > 0 && name@[0] == '/') ==> r@.take(base@.len() as int) == base@ && r@.skip(
            r@.len() - name@.len(),
        ) == name@,
{
    if name.unicode_len() > 0 && name.get_char(0) == '/' {
        owned(name)
    } else {
        append_path(base, name)
    }
}

/// The path without the slashes and the `.` pieces at its end.
pub open spec fn stripped(path: Seq<char>) -> Seq<char>
    decreases path.len(),
{
    if path.len() == 0 {
        path
    } else if path.last() == '/' || (path.len() > 1 && path.last() == '.' && path[path.len() - 2]
        == '/') {
        stripped(path.drop_last())
    } else {
        path
    }
}

/// The path without what stands behind its last slash.
pub open spec fn nameless(path: Seq<char>) -> Seq<char>
    decreases path.len(),
{
    if path.len() == 0 || path.last() == '/' {
        path
    } else {
        nameless(path.drop_last())
    }
}

/// The directory that a path lies in: the path as far as its last segment but
/// one.
pub open spec fn directory_of(path: Seq<char>) -> Seq<char> {
    let head = stripped(nameless(stripped(path)));
    if head.len() == 0 && absolute(path) {
        "/"@
    } else {
        head
    }
}

/// How long a path is without the slashes and the `.` pieces at its end.
fn stripped_len(chars: &Vec<char>, len: usize) -> (n: usize)
    requires
        len <= chars@.len(),
    ensures
        n <= len,
        stripped(chars@.take(len as int)) == chars@.take(n as int),
{
    let mut n: usize = len;
    while n > 0
        invariant
            n <= len <= chars@.len(),
            stripped(chars@.take(len as int)) == stripped(chars@.take(n as int)),
        decreases n,
    {
        if chars[n - 1] == '/' || (n > 1 && chars[n - 1] == '.' && chars[n - 2] == '/') {
            assert(chars@.take(n as int).drop_last() =~= chars@.take(n - 1));
            n = n - 1;
        } else {
            return n;
        }
    }
    n
}

/// How much of a path is the directory that it lies in.
pub fn directory_len(chars: &Vec<char>) -> (n: usize)
    ensures
        n == directory_of(chars@).len(),
        n <= chars@.len(),
        directory_of(chars@) == chars@.take(n as int),
{
    assert(chars@.take(chars@.len() as int) =~= chars@);
    let all: usize = stripped_len(chars, chars.len());
    let mut k: usize = all;
    while k > 0 && chars[k - 1] != '/'
        invariant
            k <= all <= chars@.len(),
            nameless(chars@.take(all as int)) == nameless(chars@.take(k as int)),
        decreases k,
    {
        assert(chars@.take(k as int).drop_last() =~= chars@.take(k - 1));
        k = k - 1;
    }
    let n: usize = stripped_len(chars, k);
    if n == 0 && chars.len() > 0 && chars[0] == '/' {
        proof {
            reveal_strlit("/");
        }
        assert("/"@ =~= chars@.take(1));
        1
    } else {
        n
    }
}

/// A slash at the end of a path, and a `.` behind it, name nothing.
proof fn lemma_segments_end(stem: Seq<char>)
    ensures
        segments(stem.push('/')) == segments(stem),
        segments(stem.push('/').push('.')) == segments(stem),
{
    reveal_with_fuel(naming, 3);
    reveal_strlit(".");
    lemma_split_at(stem, Seq::empty(), '/');
    assert(stem.push('/') + Seq::<char>::empty() =~= stem.push('/'));
    assert(split(Seq::<char>::empty(), '/') =~= seq![Seq::<char>::empty()]);
    lemma_naming_append(split(stem, '/'), seq![Seq::<char>::empty()]);
    assert(seq![Seq::<char>::empty()].drop_last() =~= Seq::<Seq<char>>::empty());
    assert(segments(stem.push('/')) =~= segments(stem));
    lemma_split_at(stem, "."@, '/');
    lemma_split_single("."@, '/');
    assert(stem.push('/') + "."@ =~= stem.push('/').push('.'));
    lemma_naming_append(split(stem, '/'), seq!["."@]);
    assert(seq!["."@].drop_last() =~= Seq::<Seq<char>>::empty());
    assert(segments(stem.push('/').push('.')) =~= segments(stem));
}

/// Stripping a path leaves its segments, and what is left ends in the last one.
proof fn lemma_stripped(path: Seq<char>)
    ensures
        segments(stripped(path)) == segments(path),
        stripped(path).len() > 0 ==> stripped(path).last() != '/',
        stripped(path).len() > 1 ==> !(stripped(path).last() == '.' && stripped(
            path,
        )[stripped(path).len() - 2] == '/'),
    decreases path.len(),
{
    if path.len() > 0 {
        if path.last() == '/' {
            lemma_segments_end(path.drop_last());
            assert(path.drop_last().push('/') =~= path);
            lemma_stripped(path.drop_last());
        } else if path.len() > 1 && path.last() == '.' && path[path.len() - 2] == '/' {
            let stem = path.drop_last().drop_last();
            lemma_segments_end(stem);
            assert(stem.push('/') =~= path.drop_last());
            assert(stem.push('/').push('.') =~= path);
            lemma_stripped(path.drop_last());
        }
    }
}

/// What stands behind the last slash holds none.
proof fn lemma_nameless(path: Seq<char>)
    ensures
        nameless(path).len() <= path.len(),
        nameless(path) == path.take(nameless(path).len() as int),
        nameless(path).len() > 0 ==> nameless(path).last() == '/',
        !path.skip(nameless(path).len() as int).contains('/'),
    decreases path.len(),
{
    if path.len() > 0 && path.last() != '/' {
        lemma_nameless(path.drop_last());
        let n = nameless(path).len() as int;
        assert(path.take(n) =~= path.drop_last().take(n));
        let tail = path.skip(n);
        if tail.contains('/') {
            let k = choose|k: int| 0 <= k < tail.len() && tail[k] == '/';
            assert(k < tail.len() - 1);
            assert(path.drop_last().skip(n)[k] == '/');
        }
    } else {
        assert(path.take(path.len() as int) =~= path);
        assert(path.skip(path.len() as int) =~= Seq::<char>::empty());
    }
}

/// The directory that a path lies in has all of the path's segments but the
/// last one.
pub proof fn law_directory_segments(path: Seq<char>)
    requires
        segments(path).len() > 0,
    ensures
        segments(directory_of(path)) == segments(path).drop_last(),
{
    reveal_with_fuel(naming, 3);
    reveal_strlit(".");
    reveal_strlit("/");
    let t = stripped(path);
    lemma_stripped(path);
    lemma_nameless(t);
    let u = nameless(t);
    let name = t.skip(u.len() as int);
    lemma_split_single(name, '/');
    lemma_stripped(u);
    assert(split(Seq::<char>::empty(), '/') =~= seq![Seq::<char>::empty()]);
    assert(seq![Seq::<char>::empty()].drop_last() =~= Seq::<Seq<char>>::empty());
    assert(segments(Seq::<char>::empty()) =~= Seq::<Seq<char>>::empty());
    lemma_segments_end(Seq::empty());
    assert(Seq::<char>::empty().push('/') =~= "/"@);
    assert(t.len() > 0) by {
        if t.len() == 0 {
            assert(t =~= Seq::<char>::empty());
        }
    }
    assert(name.len() > 0);
    assert(seq![name].drop_last() =~= Seq::<Seq<char>>::empty());
    if u.len() == 0 {
        assert(name =~= t);
        assert(u =~= Seq::<char>::empty());
        assert(stripped(u) == u);
        assert(naming(seq![name]) =~= segments(t));
        assert(segments(path).drop_last() =~= Seq::<Seq<char>>::empty());
    } else {
        let stem = u.drop_last();
        assert(stem.push('/') =~= u);
        assert(stem.push('/') + name =~= t);
        lemma_split_at(stem, name, '/');
        lemma_naming_append(split(stem, '/'), seq![name]);
        lemma_segments_end(stem);
        if name == "."@ {
            assert(t.last() == '.');
            assert(t[t.len() - 2] == u.last());
        }
        assert(naming(seq![name]) =~= seq![name]);
        assert(segments(t) =~= segments(stem) + seq![name]);
        assert(segments(t).drop_last() =~= segments(stem));
    }
    if stripped(u).len() == 0 {
        assert(stripped(u) =~= Seq::<char>::empty());
    }
}

/// The pieces that name something are those of the pieces that are neither empty
/// nor `.`, in their order: a piece more at the end is one more if it names
/// something, and changes nothing if not.
pub proof fn law_naming(pieces: Seq<Seq<char>>, piece: Seq<char>)
    ensures
        naming(pieces).len() <= pieces.len(),
        naming(pieces).contains(piece) <==> pieces.contains(piece) && piece.len() > 0 && piece
            != "."@,
        piece.len() > 0 && piece != "."@ ==> naming(pieces.push(piece)) == naming(pieces).push(
            piece,
        ),
        piece.len() == 0 || piece == "."@ ==> naming(pieces.push(piece)) == naming(pieces),
    decreases pieces.len(),
{
    assert(pieces.push(piece).drop_last() =~= pieces);
    if pieces.len() > 0 {
        let head = pieces.drop_last();
        let last = pieces.last();
        law_naming(head, piece);
        if pieces.contains(piece) {
            let k = choose|k: int| 0 <= k < pieces.len() && pieces[k] == piece;
            if k < head.len() {
                assert(head[k] == piece);
                if piece.len() > 0 && piece != "."@ {
                    let j = choose|j: int| 0 <= j < naming(head).len() && naming(head)[j] == piece;
                    assert(naming(pieces)[j] == piece);
                }
            } else if piece.len() > 0 && piece != "."@ {
                assert(naming(pieces)[naming(head).len() as int] == piece);
            }
        }
        if naming(pieces).contains(piece) {
            let j = choose|j: int| 0 <= j < naming(pieces).len() && naming(pieces)[j] == piece;
            if j < naming(head).len() {
                assert(naming(head)[j] == piece);
                let k = choose|k: int| 0 <= k < head.len() && head[k] == piece;
                assert(pieces[k] == piece);
            } else {
                assert(pieces[pieces.len() - 1] == piece);
            }
        }
    }
}

/// A remote path holds no backslash and begins with no slash. Only the slashes in
/// front are gone, and of the others the backslashes are turned.
pub proof fn law_remote_path(path: Seq<char>)
    ensures
        ({
            let r = remote_path(path);
            let n = path.len() - r.len();
            &&& n >= 0
            &&& !r.contains('\\')
            &&& r.len() > 0 ==> r[0] != '/'
            &&& forall|i: int| 0 <= i < n ==> #[trigger] path[i] == '/' || path[i] == '\\'
            &&& forall|i: int|
                0 <= i < r.len() ==> #[trigger] r[i] == path[n + i] || (path[n + i] == '\\' && r[i]
                    == '/')
        }),
{
    let forward = replaced(path, '\\', '/');
    law_replaced(path, '\\', '/');
    law_trim_start(forward, '/');
    let r = remote_path(path);
    let n = path.len() - r.len();
    assert(forward.skip(n) == r);
    assert forall|i: int| 0 <= i < r.len() implies #[trigger] r[i] == path[n + i] || (path[n + i]
        == '\\' && r[i] == '/') by {
        assert(r[i] == forward[n + i]);
    }
    assert forall|i: int| 0 <= i < n implies #[trigger] path[i] == '/' || path[i] == '\\' by {
        assert(forward[i] == '/');
    }
    if r.contains('\\') {
        let k = choose|k: int| 0 <= k < r.len() && r[k] == '\\';
        assert(forward[n + k] == '\\');
        assert(forward.contains('\\'));
    }
}

/// A bare path holds no backslash and has no slash at either end; one that is such
/// already stays as it is.
pub proof fn law_bare_path(path: Seq<char>)
    ensures
        !bare_path(path).contains('\\'),
        bare_path(path).len() > 0 ==> bare_path(path)[0] != '/' && bare_path(path).last() != '/',
        bare_path(path).len() <= path.len(),
        !path.contains('\\') && (path.len() == 0 || (path[0] != '/' && path.last() != '/'))
            ==> bare_path(path) == path,
{
    let forward = replaced(path, '\\', '/');
    law_replaced(path, '\\', '/');
    law_trim_both(forward, '/');
    let b = bare_path(path);
    let from = choose|from: int|
        0 <= from && from + b.len() <= forward.len() && #[trigger] forward.subrange(
            from,
            from + b.len(),
        ) == b;
    if b.contains('\\') {
        let k = choose|k: int| 0 <= k < b.len() && b[k] == '\\';
        assert(forward.subrange(from, from + b.len())[k] == forward[from + k]);
        assert(forward.contains('\\'));
    }
}

/// What lies below a directory ends in its name, with one slash in front of it and
/// the directory, without the slashes at its end, in front of that.
pub proof fn law_below(parent: Seq<char>, name: Seq<char>)
    ensures
        ({
            let r = below(parent, name);
            let n = r.len() - name.len() - 1;
            &&& 0 <= n <= parent.len()
            &&& r.skip(n + 1) == name
            &&& r[n] == '/'
            &&& r.take(n) == parent.take(n)
            &&& n > 0 ==> r[n - 1] != '/'
            &&& forall|i: int| n <= i < parent.len() ==> #[trigger] parent[i] == '/'
            &&& parent.len() > 0 && parent.last() != '/' ==> n == parent.len()
        }),
{
    reveal_strlit("/");
    law_trim_end(parent, '/');
    let r = below(parent, name);
    let n = r.len() - name.len() - 1;
    assert(r.skip(n + 1) =~= name);
    assert(r.take(n) =~= trim_end(parent, '/'));
    if parent.len() > 0 && parent.last() != '/' && n < parent.len() {
        assert(parent[parent.len() - 1] == '/');
    }
}

/// In the root an entry is its name; in any other directory its path has the
/// segments of the directory and then those of the name.
pub proof fn law_child(parent: Seq<char>, name: Seq<char>)
    ensures
        child(Seq::empty(), name) == name,
        child("/"@, name) == name,
        segments(child(parent, name)) == segments(parent) + segments(name),
{
    reveal_strlit("/");
    law_trim_end(parent, '/');
    lemma_segments_trimmed(parent);
    if parent.len() == 0 || parent == "/"@ {
        lemma_segments_append(parent, name);
        lemma_segments_append(Seq::empty(), name);
        assert(Seq::<char>::empty() + name =~= name);
        lemma_segments_end(Seq::empty());
        assert(Seq::<char>::empty().push('/') =~= "/"@);
        assert(parent.len() == 0 ==> parent =~= Seq::empty());
    } else {
        let stem = trim_end(parent, '/');
        let lead = stem.push('/');
        lemma_segments_append(lead, name);
        lemma_segments_end(stem);
        assert(appended(lead, name) =~= below(parent, name));
    }
}

/// The slashes at the end of a path name nothing.
proof fn lemma_segments_trimmed(path: Seq<char>)
    ensures
        segments(trim_end(path, '/')) == segments(path),
    decreases path.len(),
{
    if path.len() > 0 && path.last() == '/' {
        lemma_segments_end(path.drop_last());
        assert(path.drop_last().push('/') =~= path);
        lemma_segments_trimmed(path.drop_last());
    }
}

/// A name that starts at the root stands for itself in every directory, and any
/// other puts its segments behind those of the directory.
pub proof fn law_joined(base: Seq<char>, other: Seq<char>, name: Seq<char>)
    ensures
        name.len() > 0 && name[0] == '/' ==> joined(base, name) == name && joined(base, name)
            == joined(other, name),
        !(name.len() > 0 && name[0] == '/') ==> segments(joined(base, name)) == segments(base)
            + segments(name) && joined(base, name).take(base.len() as int) == base,
{
    if !absolute(name) {
        lemma_segments_append(base, name);
        assert(joined(base, name).take(base.len() as int) =~= base);
    }
}

/// A request for the empty path or a single slash gets the served directory; any
/// other that goes up, says itself where it starts or lies in a place outside the
/// served one gets nothing, and the rest gets what it names.
pub proof fn law_safe_path(
    root: Seq<char>,
    request: Seq<char>,
    base_abs: Option<Seq<char>>,
    parent_abs: Option<Seq<char>>,
    windows: bool,
)
    ensures
        ({
            let r = safe_path(root, request, base_abs, parent_abs, windows);
            let whole = request.len() == 0 || (request.len() == 1 && request[0] == '/');
            &&& whole ==> r == Some(root)
            &&& !whole && names(unrooted(request), windows).contains(".."@) ==> r is None
            &&& !whole && placed(unrooted(request), windows) ==> r is None
            &&& !whole && base_abs is None ==> r is None
            &&& !whole ==> (base_abs matches Some(b) ==> (parent_abs matches Some(p) ==> (!under(
                p,
                b,
                windows,
            ) ==> r is None)))
            &&& !whole && !names(unrooted(request), windows).contains(".."@) && !placed(
                unrooted(request),
                windows,
            ) ==> (base_abs matches Some(b) ==> (parent_abs matches Some(p) ==> (under(p, b, windows)
                ==> r == Some(resolved_path(root, unrooted(request), windows)))))
        }),
{
}

/// Before a request is looked at, one slash in front of it is taken away, and
/// nothing else.
pub proof fn law_unrooted(path: Seq<char>)
    ensures
        path.len() == 0 || path[0] != '/' ==> unrooted(path) == path,
        unrooted(seq!['/'] + path) == path,
{
    assert((seq!['/'] + path).drop_first() =~= path);
}

} // verus!
