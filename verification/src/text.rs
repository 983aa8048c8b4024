//! Text primitives: every operation is stated over the characters of a string.

use vstd::prelude::*;
use vstd::string::*;

verus! {

/// `String::push`: the character is added behind the ones already there.
pub assume_specification[ String::push ](s: &mut String, c: char)
    ensures
        final(s)@ == old(s)@.push(c),
;

/// `s` without its leading characters equal to `c`.
pub open spec fn trim_start(s: Seq<char>, c: char) -> Seq<char>
    decreases s.len(),
{
    if s.len() > 0 && s[0] == c {
        trim_start(s.drop_first(), c)
    } else {
        s
    }
}

/// `s` without its trailing characters equal to `c`.
pub open spec fn trim_end(s: Seq<char>, c: char) -> Seq<char>
    decreases s.len(),
{
    if s.len() > 0 && s.last() == c {
        trim_end(s.drop_last(), c)
    } else {
        s
    }
}

/// `s` without its leading and trailing characters equal to `c`.
pub open spec fn trim_both(s: Seq<char>, c: char) -> Seq<char> {
    trim_end(trim_start(s, c), c)
}

/// `s` with every `from` turned into `to`.
pub open spec fn replaced(s: Seq<char>, from: char, to: char) -> Seq<char> {
    s.map_values(|c: char| if c == from { to } else { c })
}

/// The pieces of `s` between the occurrences of `sep`: one more piece than
/// there are separators, and a single empty piece for the empty text.
pub open spec fn split(s: Seq<char>, sep: char) -> Seq<Seq<char>>
    decreases s.len(),
{
    if s.len() == 0 {
        seq![Seq::<char>::empty()]
    } else {
        let before = split(s.drop_last(), sep);
        if s.last() == sep {
            before.push(Seq::<char>::empty())
        } else {
            before.drop_last().push(before.last().push(s.last()))
        }
    }
}

/// The pieces put behind one another with `sep` between them.
pub open spec fn join(pieces: Seq<Seq<char>>, sep: char) -> Seq<char>
    decreases pieces.len(),
{
    if pieces.len() == 0 {
        Seq::empty()
    } else if pieces.len() == 1 {
        pieces[0]
    } else {
        join(pieces.drop_last(), sep).push(sep) + pieces.last()
    }
}

/// The texts that a sequence of strings holds.
pub open spec fn texts(v: Seq<String>) -> Seq<Seq<char>> {
    v.map_values(|s: String| s@)
}

/// What stands behind the last `sep` of `s`: all of `s` where there is none.
pub open spec fn after_last(s: Seq<char>, sep: char) -> Seq<char> {
    split(s, sep).last()
}

/// The position of the last `c` in `s`.
pub open spec fn last_position(s: Seq<char>, c: char) -> Option<int>
    decreases s.len(),
{
    if s.len() == 0 {
        None
    } else if s.last() == c {
        Some(s.len() - 1)
    } else {
        last_position(s.drop_last(), c)
    }
}

/// `s` starts with `prefix`.
pub open spec fn has_prefix(s: Seq<char>, prefix: Seq<char>) -> bool {
    prefix.len() <= s.len() && s.take(prefix.len() as int) == prefix
}

/// The Unicode property White_Space.
pub open spec fn is_white(c: char) -> bool {
    ||| 0x09 <= c as u32 <= 0x0d
    ||| c as u32 == 0x20
    ||| c as u32 == 0x85
    ||| c as u32 == 0xa0
    ||| c as u32 == 0x1680
    ||| 0x2000 <= c as u32 <= 0x200a
    ||| c as u32 == 0x2028
    ||| c as u32 == 0x2029
    ||| c as u32 == 0x202f
    ||| c as u32 == 0x205f
    ||| c as u32 == 0x3000
}

/// `s` without its leading white space.
pub open spec fn trim_white_start(s: Seq<char>) -> Seq<char>
    decreases s.len(),
{
    if s.len() > 0 && is_white(s[0]) {
        trim_white_start(s.drop_first())
    } else {
        s
    }
}

/// `s` without its trailing white space.
pub open spec fn trim_white_end(s: Seq<char>) -> Seq<char>
    decreases s.len(),
{
    if s.len() > 0 && is_white(s.last()) {
        trim_white_end(s.drop_last())
    } else {
        s
    }
}

/// `s` without its leading and trailing white space.
pub open spec fn trim_white(s: Seq<char>) -> Seq<char> {
    trim_white_end(trim_white_start(s))
}

/// The characters of `s`, in order.
pub fn chars_of(s: &str) -> (chars: Vec<char>)
    ensures
        chars@ == s@,
{
    let mut chars: Vec<char> = Vec::new();
    for c in it: s.chars()
        invariant
            chars@ == it.seq().take(it.index()),
            it.seq() == s@,
    {
        chars.push(c);
    }
    chars
}

/// The string that holds the characters `chars[from..to]`.
pub fn string_of(chars: &Vec<char>, from: usize, to: usize) -> (s: String)
    requires
        from <= to <= chars.len(),
    ensures
        s@ == chars@.subrange(from as int, to as int),
{
    let mut s = String::new();
    for i in from..to
        invariant
            from <= to <= chars.len(),
            s@ == chars@.subrange(from as int, i as int),
    {
        s.push(chars[i]);
    }
    s
}

/// The string that holds the text of `s`.
pub fn owned(s: &str) -> (r: String)
    ensures
        r@ == s@,
{
    s.to_owned()
}

/// Whether two strings hold the same text.
pub fn same_text(a: &str, b: &str) -> (same: bool)
    ensures
        same == (a@ == b@),
{
    let ca = chars_of(a);
    let cb = chars_of(b);
    if ca.len() != cb.len() {
        return false;
    }
    for i in 0..ca.len()
        invariant
            ca@ == a@,
            cb@ == b@,
            ca.len() == cb.len(),
            forall|k: int| 0 <= k < i ==> ca@[k] == cb@[k],
    {
        if ca[i] != cb[i] {
            assert(a@[i as int] != b@[i as int]);
            return false;
        }
    }
    assert(a@ =~= b@);
    true
}

/// Whether `s` starts with `prefix`.
pub fn starts_with(s: &str, prefix: &str) -> (r: bool)
    ensures
        r == has_prefix(s@, prefix@),
{
    let cs = chars_of(s);
    let cp = chars_of(prefix);
    if cs.len() < cp.len() {
        return false;
    }
    for i in 0..cp.len()
        invariant
            cs@ == s@,
            cp@ == prefix@,
            cp.len() <= cs.len(),
            forall|k: int| 0 <= k < i ==> cs@[k] == cp@[k],
    {
        if cs[i] != cp[i] {
            assert(s@.take(prefix@.len() as int)[i as int] != prefix@[i as int]);
            return false;
        }
    }
    assert(s@.take(prefix@.len() as int) =~= prefix@);
    true
}

/// `s` without its leading characters equal to `c`.
pub fn trim_start_char<'a>(s: &'a str, c: char) -> (r: &'a str)
    ensures
        r@ == trim_start(s@, c),
{
    let chars = chars_of(s);
    let mut i: usize = 0;
    assert(s@.skip(0) =~= s@);
    while i < chars.len() && chars[i] == c
        invariant
            chars@ == s@,
            i <= chars.len(),
            trim_start(s@, c) == trim_start(s@.skip(i as int), c),
        decreases chars.len() - i,
    {
        assert(s@.skip(i as int).drop_first() =~= s@.skip(i as int + 1));
        i = i + 1;
    }
    s.substring_char(i, chars.len())
}

/// `s` without its trailing characters equal to `c`.
pub fn trim_end_char<'a>(s: &'a str, c: char) -> (r: &'a str)
    ensures
        r@ == trim_end(s@, c),
{
    let chars = chars_of(s);
    let mut i: usize = chars.len();
    assert(s@.take(i as int) =~= s@);
    while i > 0 && chars[i - 1] == c
        invariant
            chars@ == s@,
            i <= chars.len(),
            trim_end(s@, c) == trim_end(s@.take(i as int), c),
        decreases i,
    {
        assert(s@.take(i as int).drop_last() =~= s@.take(i as int - 1));
        i = i - 1;
    }
    s.substring_char(0, i)
}

/// `s` without its leading and trailing characters equal to `c`.
pub fn trim_char<'a>(s: &'a str, c: char) -> (r: &'a str)
    ensures
        r@ == trim_both(s@, c),
{
    trim_end_char(trim_start_char(s, c), c)
}

/// Whether `c` is white space.
fn white(c: char) -> (r: bool)
    ensures
        r == is_white(c),
{
    let u: u32 = c as u32;
    (0x09 <= u && u <= 0x0d) || u == 0x20 || u == 0x85 || u == 0xa0 || u == 0x1680 || (0x2000 <= u
        && u <= 0x200a) || u == 0x2028 || u == 0x2029 || u == 0x202f || u == 0x205f || u == 0x3000
}

/// `s` without its leading and trailing white space.
pub fn trim<'a>(s: &'a str) -> (r: &'a str)
    ensures
        r@ == trim_white(s@),
{
    let chars = chars_of(s);
    let mut i: usize = 0;
    assert(s@.skip(0) =~= s@);
    while i < chars.len() && white(chars[i])
        invariant
            chars@ == s@,
            i <= chars.len(),
            trim_white_start(s@) == trim_white_start(s@.skip(i as int)),
        decreases chars.len() - i,
    {
        assert(s@.skip(i as int).drop_first() =~= s@.skip(i as int + 1));
        i = i + 1;
    }
    let mut j: usize = chars.len();
    let ghost t = trim_white_start(s@);
    assert(t =~= s@.subrange(i as int, j as int));
    while j > i && white(chars[j - 1])
        invariant
            chars@ == s@,
            i <= j <= chars.len(),
            trim_white_end(t) == trim_white_end(s@.subrange(i as int, j as int)),
        decreases j,
    {
        assert(s@.subrange(i as int, j as int).drop_last() =~= s@.subrange(i as int, j as int - 1));
        j = j - 1;
    }
    s.substring_char(i, j)
}

/// `s` with every `from` turned into `to`.
pub fn replace_char(s: &str, from: char, to: char) -> (r: String)
    ensures
        r@ == replaced(s@, from, to),
{
    let chars = chars_of(s);
    let mut r = String::new();
    for i in 0..chars.len()
        invariant
            chars@ == s@,
            r@ == replaced(s@, from, to).take(i as int),
    {
        if chars[i] == from {
            r.push(to);
        } else {
            r.push(chars[i]);
        }
    }
    assert(replaced(s@, from, to).take(s@.len() as int) =~= replaced(s@, from, to));
    r
}

/// The pieces of `s` between the occurrences of `sep`.
pub fn split_char(s: &str, sep: char) -> (pieces: Vec<String>)
    ensures
        texts(pieces@) == split(s@, sep),
{
    let chars = chars_of(s);
    let mut pieces: Vec<String> = Vec::new();
    let mut current = String::new();
    assert(texts(pieces@).push(current@) =~= split(s@.take(0), sep));
    for i in 0..chars.len()
        invariant
            chars@ == s@,
            texts(pieces@).push(current@) == split(s@.take(i as int), sep),
    {
        assert(s@.take(i as int + 1).drop_last() =~= s@.take(i as int));
        let ghost before = texts(pieces@).push(current@);
        if chars[i] == sep {
            let ghost held = pieces@;
            let piece = current;
            pieces.push(piece);
            current = String::new();
            assert(texts(pieces@) =~= before);
        } else {
            assert(before.drop_last() =~= texts(pieces@));
            current.push(chars[i]);
        }
    }
    assert(s@.take(s@.len() as int) =~= s@);
    let ghost all = texts(pieces@).push(current@);
    pieces.push(current);
    assert(texts(pieces@) =~= all);
    pieces
}

/// The position, counted in characters, of the last `c` in `s`.
pub fn find_last(s: &str, c: char) -> (r: Option<usize>)
    ensures
        match r {
            Some(i) => last_position(s@, c) == Some(i as int),
            None => last_position(s@, c) is None,
        },
{
    let chars = chars_of(s);
    let mut i: usize = chars.len();
    assert(s@.take(i as int) =~= s@);
    while i > 0
        invariant
            chars@ == s@,
            i <= chars.len(),
            last_position(s@, c) == last_position(s@.take(i as int), c),
        decreases i,
    {
        assert(s@.take(i as int).drop_last() =~= s@.take(i as int - 1));
        if chars[i - 1] == c {
            return Some(i - 1);
        }
        i = i - 1;
    }
    None
}

/// Trimming at the start takes away characters equal to `c` and nothing else, and
/// all of them that stand there.
pub proof fn law_trim_start(s: Seq<char>, c: char)
    ensures
        trim_start(s, c).len() <= s.len(),
        s.skip(s.len() - trim_start(s, c).len()) == trim_start(s, c),
        forall|i: int| 0 <= i < s.len() - trim_start(s, c).len() ==> #[trigger] s[i] == c,
        trim_start(s, c).len() > 0 ==> trim_start(s, c)[0] != c,
    decreases s.len(),
{
    if s.len() > 0 && s[0] == c {
        let rest = s.drop_first();
        law_trim_start(rest, c);
        let n = s.len() - trim_start(s, c).len();
        assert(s.skip(n) =~= rest.skip(n - 1));
        assert forall|i: int| 0 <= i < n implies #[trigger] s[i] == c by {
            if i > 0 {
                assert(rest[i - 1] == c);
            }
        }
    } else {
        assert(s.skip(0) =~= s);
    }
}

/// Trimming at the end takes away characters equal to `c` and nothing else, and
/// all of them that stand there.
pub proof fn law_trim_end(s: Seq<char>, c: char)
    ensures
        trim_end(s, c).len() <= s.len(),
        s.take(trim_end(s, c).len() as int) == trim_end(s, c),
        forall|i: int| trim_end(s, c).len() <= i < s.len() ==> #[trigger] s[i] == c,
        trim_end(s, c).len() > 0 ==> trim_end(s, c).last() != c,
    decreases s.len(),
{
    if s.len() > 0 && s.last() == c {
        let rest = s.drop_last();
        law_trim_end(rest, c);
        let n = trim_end(s, c).len() as int;
        assert(s.take(n) =~= rest.take(n));
        assert forall|i: int| n <= i < s.len() implies #[trigger] s[i] == c by {
            if i < rest.len() {
                assert(rest[i] == c);
            }
        }
    } else {
        assert(s.take(s.len() as int) =~= s);
    }
}

/// Trimming at both ends leaves a part of the text that neither starts nor ends
/// with `c`, and all that is gone is `c`.
pub proof fn law_trim_both(s: Seq<char>, c: char)
    ensures
        trim_both(s, c).len() > 0 ==> trim_both(s, c)[0] != c && trim_both(s, c).last() != c,
        exists|from: int|
            0 <= from && from + trim_both(s, c).len() <= s.len() && #[trigger] s.subrange(
                from,
                from + trim_both(s, c).len(),
            ) == trim_both(s, c) && (forall|i: int|
                (0 <= i < from || from + trim_both(s, c).len() <= i < s.len())
                    ==> #[trigger] s[i] == c),
{
    let a = trim_start(s, c);
    let b = trim_both(s, c);
    law_trim_start(s, c);
    law_trim_end(a, c);
    let from = s.len() - a.len();
    assert(s.subrange(from, from + b.len()) =~= a.take(b.len() as int));
    assert forall|i: int|
        (0 <= i < from || from + b.len() <= i < s.len()) implies #[trigger] s[i] == c by {
        if i >= from + b.len() {
            assert(a[i - from] == s[i]);
        }
    }
}

/// Turning a character into another one leaves every other character as it is,
/// and none of the first in the text.
pub proof fn law_replaced(s: Seq<char>, from: char, to: char)
    ensures
        replaced(s, from, to).len() == s.len(),
        forall|i: int|
            0 <= i < s.len() ==> #[trigger] replaced(s, from, to)[i] == s[i] || (s[i] == from
                && replaced(s, from, to)[i] == to),
        from != to ==> !replaced(s, from, to).contains(from),
        !s.contains(from) ==> replaced(s, from, to) == s,
{
    if !s.contains(from) {
        assert forall|i: int| 0 <= i < s.len() implies replaced(s, from, to)[i] == s[i] by {
            assert(s.contains(s[i]));
        }
        assert(replaced(s, from, to) =~= s);
    }
}

/// The pieces of a text hold no separator, and put together again with separators
/// between them they are the text.
pub proof fn law_split(s: Seq<char>, sep: char)
    ensures
        split(s, sep).len() > 0,
        join(split(s, sep), sep) == s,
        forall|i: int| 0 <= i < split(s, sep).len() ==> !(#[trigger] split(s, sep)[i]).contains(sep),
    decreases s.len(),
{
    if s.len() == 0 {
        assert(join(split(s, sep), sep) =~= s);
    } else {
        let head = s.drop_last();
        let before = split(head, sep);
        let all = split(s, sep);
        law_split(head, sep);
        if s.last() == sep {
            assert(all.drop_last() =~= before);
            assert(join(all, sep) =~= head.push(sep));
            assert forall|i: int| 0 <= i < all.len() implies !(#[trigger] all[i]).contains(sep) by {
                if i < before.len() {
                    assert(all[i] == before[i]);
                }
            }
        } else {
            let grown = before.last().push(s.last());
            assert(all.drop_last() =~= before.drop_last());
            if before.len() == 1 {
                assert(join(all, sep) =~= s);
            } else {
                assert(join(before, sep) == join(before.drop_last(), sep).push(sep)
                    + before.last());
                assert(join(all, sep) =~= head.push(s.last()));
            }
            assert(head.push(s.last()) =~= s);
            assert forall|i: int| 0 <= i < all.len() implies !(#[trigger] all[i]).contains(sep) by {
                if i < before.len() - 1 {
                    assert(all[i] == before[i]);
                } else {
                    assert(all[i] == grown);
                    assert(!before[before.len() - 1].contains(sep));
                    if grown.contains(sep) {
                        let k = choose|k: int| 0 <= k < grown.len() && grown[k] == sep;
                        assert(before.last()[k] == sep);
                    }
                }
            }
        }
    }
}

/// What stands behind the last separator holds none, ends the text, and follows
/// on a separator unless it is the whole text.
pub proof fn law_after_last(s: Seq<char>, sep: char)
    ensures
        !after_last(s, sep).contains(sep),
        after_last(s, sep).len() <= s.len(),
        s.skip(s.len() - after_last(s, sep).len()) == after_last(s, sep),
        after_last(s, sep) == s || s[s.len() - after_last(s, sep).len() - 1] == sep,
{
    let pieces = split(s, sep);
    law_split(s, sep);
    assert(!pieces[pieces.len() - 1].contains(sep));
    if pieces.len() == 1 {
        assert(s.skip(0) =~= s);
    } else {
        let front = join(pieces.drop_last(), sep).push(sep);
        assert(s == front + pieces.last());
        assert(s.skip(front.len() as int) =~= pieces.last());
    }
}

/// The last position of a character holds it, and no later one does; where there
/// is none, the text does not hold it.
pub proof fn law_last_position(s: Seq<char>, c: char)
    ensures
        match last_position(s, c) {
            Some(i) => 0 <= i < s.len() && s[i] == c && forall|k: int|
                i < k < s.len() ==> #[trigger] s[k] != c,
            None => !s.contains(c),
        },
    decreases s.len(),
{
    if s.len() > 0 && s.last() != c {
        let head = s.drop_last();
        law_last_position(head, c);
        match last_position(head, c) {
            Some(i) => {
                assert forall|k: int| i < k < s.len() implies #[trigger] s[k] != c by {
                    if k < head.len() {
                        assert(head[k] == s[k]);
                    }
                }
            },
            None => {
                if s.contains(c) {
                    let k = choose|k: int| 0 <= k < s.len() && s[k] == c;
                    assert(head[k] == c);
                }
            },
        }
    }
}

/// A text starts with a prefix if and only if it is the prefix and something
/// behind it.
pub proof fn law_has_prefix(s: Seq<char>, prefix: Seq<char>)
    ensures
        has_prefix(s, prefix) <==> exists|rest: Seq<char>| s == #[trigger] (prefix + rest),
{
    if has_prefix(s, prefix) {
        assert(s =~= prefix + s.skip(prefix.len() as int));
    }
    if exists|rest: Seq<char>| s == #[trigger] (prefix + rest) {
        let rest = choose|rest: Seq<char>| s == #[trigger] (prefix + rest);
        assert(s.take(prefix.len() as int) =~= prefix);
    }
}

/// Trimming white space takes away white space at the ends and nothing else, and
/// all of it that stands there.
pub proof fn law_trim_white(s: Seq<char>)
    ensures
        trim_white(s).len() > 0 ==> !is_white(trim_white(s)[0]) && !is_white(trim_white(s).last()),
        exists|from: int|
            0 <= from && from + trim_white(s).len() <= s.len() && #[trigger] s.subrange(
                from,
                from + trim_white(s).len(),
            ) == trim_white(s) && (forall|i: int|
                (0 <= i < from || from + trim_white(s).len() <= i < s.len()) ==> is_white(
                    #[trigger] s[i],
                )),
{
    let a = trim_white_start(s);
    let b = trim_white(s);
    lemma_trim_white_start(s);
    lemma_trim_white_end(a);
    let from = s.len() - a.len();
    assert(s.subrange(from, from + b.len()) =~= a.take(b.len() as int));
    assert forall|i: int|
        (0 <= i < from || from + b.len() <= i < s.len()) implies is_white(#[trigger] s[i]) by {
        if i >= from + b.len() {
            assert(a[i - from] == s[i]);
        }
    }
}

/// What goes at the start.
proof fn lemma_trim_white_start(s: Seq<char>)
    ensures
        trim_white_start(s).len() <= s.len(),
        s.skip(s.len() - trim_white_start(s).len()) == trim_white_start(s),
        forall|i: int| 0 <= i < s.len() - trim_white_start(s).len() ==> is_white(#[trigger] s[i]),
        trim_white_start(s).len() > 0 ==> !is_white(trim_white_start(s)[0]),
    decreases s.len(),
{
    if s.len() > 0 && is_white(s[0]) {
        let rest = s.drop_first();
        lemma_trim_white_start(rest);
        let n = s.len() - trim_white_start(s).len();
        assert(s.skip(n) =~= rest.skip(n - 1));
        assert forall|i: int| 0 <= i < n implies is_white(#[trigger] s[i]) by {
            if i > 0 {
                assert(is_white(rest[i - 1]));
            }
        }
    } else {
        assert(s.skip(0) =~= s);
    }
}

/// What goes at the end.
proof fn lemma_trim_white_end(s: Seq<char>)
    ensures
        trim_white_end(s).len() <= s.len(),
        s.take(trim_white_end(s).len() as int) == trim_white_end(s),
        forall|i: int| trim_white_end(s).len() <= i < s.len() ==> is_white(#[trigger] s[i]),
        trim_white_end(s).len() > 0 ==> !is_white(trim_white_end(s).last()) && trim_white_end(s)[0]
            == s[0],
    decreases s.len(),
{
    if s.len() > 0 && is_white(s.last()) {
        let rest = s.drop_last();
        lemma_trim_white_end(rest);
        let n = trim_white_end(s).len() as int;
        assert(s.take(n) =~= rest.take(n));
        assert forall|i: int| n <= i < s.len() implies is_white(#[trigger] s[i]) by {
            if i < rest.len() {
                assert(is_white(rest[i]));
            }
        }
    } else {
        assert(s.take(s.len() as int) =~= s);
    }
}

/// Of the characters with numbers below 128 just the space and the five from the
/// tab to the carriage return are white; what can be seen is not.
pub proof fn law_white(c: char)
    requires
        (c as u32) < 0x80,
    ensures
        is_white(c) <==> c == ' ' || c == '\t' || c == '\n' || c == '\r' || c as u32 == 0x0b || c as u32
            == 0x0c,
{
}

} // verus!
