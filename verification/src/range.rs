//! Byte ranges: the headers that name them, and what they select of a file.

use vstd::prelude::*;
use vstd::string::*;

use crate::bytes::slice;
use crate::client::{patch_request, range_header};
use crate::http::{BodyView, Method};
use crate::numeral::{
    all_digits, decimal, law_decimal_round_trip, lemma_decimal_digits, parse_u64,
    parsed_within, render_decimal,
};
use crate::paths::{lemma_split_at, lemma_split_single};
use crate::text::{has_prefix, owned, split, split_char, starts_with, texts};

verus! {

/// The number that a text denotes, if it fits 64 bits.
pub open spec fn number(s: Seq<char>) -> Option<nat> {
    parsed_within(s, 10, u64::MAX as nat)
}

/// What a `Range` header asks for: a start, and an end unless it is left open.
pub open spec fn byte_range(header: Seq<char>) -> Option<(nat, Option<nat>)> {
    if !has_prefix(header, "bytes="@) {
        None
    } else {
        let parts = split(header.skip("bytes="@.len() as int), '-');
        if parts.len() != 2 {
            None
        } else {
            match (number(parts[0]), number(parts[1])) {
                (Some(start), Some(end)) => Some((start, Some(end))),
                (Some(start), None) => if parts[1].len() == 0 {
                    Some((start, None))
                } else {
                    None
                },
                _ => None,
            }
        }
    }
}

/// What is wrong with a `Content-Range` header.
#[derive(Debug, Clone, Copy, PartialEq, Eq, Structural)]
pub enum RangeFault {
    Format,
    StartEnd,
    Start,
    End,
    Order,
}

/// What a `Content-Range` header names: the first and the last byte.
pub open spec fn content_span(header: Seq<char>) -> Result<(nat, nat), RangeFault> {
    if !has_prefix(header, "bytes "@) {
        Err(RangeFault::Format)
    } else {
        let ends = split(split(header.skip("bytes "@.len() as int), '/')[0], '-');
        if ends.len() != 2 {
            Err(RangeFault::StartEnd)
        } else {
            match number(ends[0]) {
                None => Err(RangeFault::Start),
                Some(start) => match number(ends[1]) {
                    None => Err(RangeFault::End),
                    Some(end) => if end < start {
                        Err(RangeFault::Order)
                    } else {
                        Ok((start, end))
                    },
                },
            }
        }
    }
}

/// What stands behind a prefix.
fn behind(s: &str, prefix: &str) -> (r: String)
    requires
        has_prefix(s@, prefix@),
    ensures
        r@ == s@.skip(prefix@.len() as int),
{
    let from: usize = prefix.unicode_len();
    let to: usize = s.unicode_len();
    let r = owned(s.substring_char(from, to));
    assert(r@ =~= s@.skip(prefix@.len() as int));
    r
}

/// What a `Range` header asks for.
pub fn parse_range(range_str: &str) -> (r: Option<(u64, Option<u64>)>)
    ensures
        match r {
            Some((start, Some(end))) => byte_range(range_str@) == Some(
                (start as nat, Some(end as nat)),
            ),
            Some((start, None)) => byte_range(range_str@) == Some((start as nat, None::<nat>)),
            None => byte_range(range_str@) is None,
        },
{
    if !starts_with(range_str, "bytes=") {
        return None;
    }
    let rest = behind(range_str, "bytes=");
    let parts = split_char(rest.as_str(), '-');
    assert(texts(parts@).len() == parts@.len());
    if parts.len() != 2 {
        return None;
    }
    assert(texts(parts@)[0] == parts@[0]@);
    assert(texts(parts@)[1] == parts@[1]@);
    match parse_u64(parts[0].as_str()) {
        None => None,
        Some(start) => {
            if parts[1].as_str().unicode_len() == 0 {
                Some((start, None))
            } else {
                match parse_u64(parts[1].as_str()) {
                    Some(end) => Some((start, Some(end))),
                    None => None,
                }
            }
        },
    }
}

/// What a `Content-Range` header names.
pub fn parse_content_range(header: &str) -> (r: Result<(u64, u64), RangeFault>)
    ensures
        match r {
            Ok((start, end)) => content_span(header@) == Ok::<(nat, nat), RangeFault>(
                (start as nat, end as nat),
            ),
            Err(f) => content_span(header@) == Err::<(nat, nat), RangeFault>(f),
        },
{
    if !starts_with(header, "bytes ") {
        return Err(RangeFault::Format);
    }
    let rest = behind(header, "bytes ");
    let parts = split_char(rest.as_str(), '/');
    proof {
        crate::paths::lemma_split_some(rest@, '/');
    }
    assert(texts(parts@).len() == parts@.len());
    assert(texts(parts@)[0] == parts@[0]@);
    let ends = split_char(parts[0].as_str(), '-');
    assert(texts(ends@).len() == ends@.len());
    if ends.len() != 2 {
        return Err(RangeFault::StartEnd);
    }
    assert(texts(ends@)[0] == ends@[0]@);
    assert(texts(ends@)[1] == ends@[1]@);
    let start: u64 = match parse_u64(ends[0].as_str()) {
        Some(n) => n,
        None => {
            return Err(RangeFault::Start);
        },
    };
    let end: u64 = match parse_u64(ends[1].as_str()) {
        Some(n) => n,
        None => {
            return Err(RangeFault::End);
        },
    };
    if end < start {
        Err(RangeFault::Order)
    } else {
        Ok((start, end))
    }
}

/// The bytes of a file of `file_size` bytes that a range selects: the first one
/// and the last one, or `None` where the range starts behind what it can end at.
pub open spec fn selected(start: nat, end: Option<nat>, file_size: nat) -> Option<(nat, nat)> {
    let last = (file_size - 1) as nat;
    let actual_end = match end {
        Some(e) => if e < last {
            e
        } else {
            last
        },
        None => last,
    };
    if start > actual_end {
        None
    } else {
        Some((start, actual_end))
    }
}

/// The value of the `Content-Range` header of an answer.
pub open spec fn answer_range(start: nat, end: nat, file_size: nat) -> Seq<char> {
    "bytes "@ + decimal(start) + "-"@ + decimal(end) + "/"@ + decimal(file_size)
}

/// The bytes that a range selects of a file that is not empty.
pub fn select_range(start: u64, end: Option<u64>, file_size: u64) -> (r: Option<(u64, u64)>)
    requires
        file_size > 0,
    ensures
        ({
            let wanted = match end {
                Some(e) => Some(e as nat),
                None => None,
            };
            match r {
                Some((s, e)) => selected(start as nat, wanted, file_size as nat) == Some(
                    (s as nat, e as nat),
                ) && s <= e < file_size,
                None => selected(start as nat, wanted, file_size as nat) is None,
            }
        }),
        r is None <==> (start >= file_size || (end matches Some(e) && e < start)),
        r matches Some((s, e)) ==> s == start && (e == file_size - 1 || end == Some(e)),
        r matches Some((s, e)) ==> (end matches Some(w) ==> e <= w),
{
    let last: u64 = file_size - 1;
    let actual_end: u64 = match end {
        Some(e) => if e < last {
            e
        } else {
            last
        },
        None => last,
    };
    if start > actual_end {
        None
    } else {
        Some((start, actual_end))
    }
}

/// The value of the `Content-Range` header of an answer.
pub fn render_answer_range(start: u64, end: u64, file_size: u64) -> (s: String)
    ensures
        s@ == answer_range(start as nat, end as nat, file_size as nat),
{
    let mut s = owned("bytes ");
    s.append(render_decimal(start).as_str());
    s.append("-");
    s.append(render_decimal(end).as_str());
    s.append("/");
    s.append(render_decimal(file_size).as_str());
    s
}

/// Where to read, and how much, for a request with an optional offset and size:
/// nothing from behind the end, and nothing beyond it.
pub open spec fn window(offset: Option<u64>, size: Option<u64>, file_size: nat) -> (nat, nat) {
    let from = match offset {
        Some(o) => o as nat,
        None => 0,
    };
    if from >= file_size {
        (0, 0)
    } else {
        let left = (file_size - from) as nat;
        match size {
            Some(n) => if n < left {
                (from, n as nat)
            } else {
                (from, left)
            },
            None => (from, left),
        }
    }
}

/// Where to read, and how much.
pub fn read_window(offset: Option<u64>, size: Option<u64>, file_size: u64) -> (r: (u64, u64))
    ensures
        (r.0 as nat, r.1 as nat) == window(offset, size, file_size as nat),
        r.0 + r.1 <= file_size,
        r.1 > 0 ==> r.0 == (match offset {
            Some(o) => o as int,
            None => 0,
        }),
        size matches Some(n) ==> r.1 <= n,
        offset is None && size is None ==> r == (0u64, file_size),
        ({
            let at = match offset {
                Some(o) => o as int,
                None => 0int,
            };
            &&& at >= file_size ==> r.1 == 0
            &&& at < file_size && size is None ==> r.0 == at && r.1 == file_size - at
            &&& at < file_size ==> (size matches Some(n) ==> r.0 == at && (r.1 == n || (r.1 < n && r.1
                == file_size - at)))
        }),
{
    let from: u64 = match offset {
        Some(o) => o,
        None => 0,
    };
    if from >= file_size {
        return (0, 0);
    }
    let left: u64 = file_size - from;
    match size {
        Some(n) => if n < left {
            (from, n)
        } else {
            (from, left)
        },
        None => (from, left),
    }
}

/// A request for part of a file gets exactly the bytes of it that lie in the
/// range asked for, and none from behind the end.
pub proof fn law_window_bytes(content: Seq<u8>, offset: Option<u64>, size: Option<u64>)
    ensures
        ({
            let from = match offset {
                Some(o) => o as int,
                None => 0,
            };
            let n = match size {
                Some(n) => n as int,
                None => content.len() as int,
            };
            let (o, m) = window(offset, size, content.len());
            slice(content, o as int, m as int) == slice(content, from, n)
        }),
{
    let from = match offset {
        Some(o) => o as int,
        None => 0,
    };
    let n = match size {
        Some(n) => n as int,
        None => content.len() as int,
    };
    let (o, m) = window(offset, size, content.len());
    assert(slice(content, o as int, m as int) =~= slice(content, from, n));
}

/// A range that is answered selects bytes of the file, as many as its header
/// says.
pub proof fn law_selected_bytes(content: Seq<u8>, start: nat, end: Option<nat>)
    requires
        content.len() > 0,
    ensures
        selected(start, end, content.len()) matches Some((s, e)) ==> s <= e < content.len()
            && slice(content, s as int, e - s + 1).len() == e - s + 1,
{
}

/// Digits hold no hyphen, no slash and no asterisk.
pub proof fn lemma_digits_plain(s: Seq<char>)
    requires
        all_digits(s, 10),
    ensures
        !s.contains('-'),
        !s.contains('/'),
        !s.contains('*'),
{
    if s.contains('-') {
        let i = choose|i: int| 0 <= i < s.len() && s[i] == '-';
        assert(crate::numeral::is_digit(s[i], 10));
    }
    if s.contains('/') {
        let i = choose|i: int| 0 <= i < s.len() && s[i] == '/';
        assert(crate::numeral::is_digit(s[i], 10));
    }
    if s.contains('*') {
        let i = choose|i: int| 0 <= i < s.len() && s[i] == '*';
        assert(crate::numeral::is_digit(s[i], 10));
    }
}

/// The header that the client writes for bytes `from` to `to` is understood by
/// the server as just these bytes.
pub proof fn law_range_header_round_trip(from: nat, to: nat)
    requires
        from <= to <= u64::MAX,
    ensures
        content_span(range_header(from, to)) == Ok::<(nat, nat), RangeFault>((from, to)),
{
    reveal_strlit("bytes ");
    reveal_strlit("-");
    reveal_strlit("/*");
    let a = decimal(from);
    let b = decimal(to);
    lemma_decimal_digits(from);
    lemma_decimal_digits(to);
    lemma_digits_plain(a);
    lemma_digits_plain(b);
    law_decimal_round_trip(from, u64::MAX as nat);
    law_decimal_round_trip(to, u64::MAX as nat);
    let header = range_header(from, to);
    assert(header.take(6) =~= "bytes "@);
    let rest = header.skip(6);
    let span = a.push('-') + b;
    let star = seq!['*'];
    assert(rest =~= span.push('/') + star);
    if span.contains('/') {
        let i = choose|i: int| 0 <= i < span.len() && span[i] == '/';
        if i < a.len() {
            assert(a[i] == '/');
        } else if i > a.len() {
            assert(b[i - a.len() - 1] == '/');
        }
    }
    lemma_split_at(span, star, '/');
    lemma_split_single(span, '/');
    assert(split(rest, '/')[0] == span);
    lemma_split_at(a, b, '-');
    lemma_split_single(a, '-');
    lemma_split_single(b, '-');
    assert(split(span, '-') =~= seq![a, b]);
}

/// A range is refused only where it starts behind the last byte or ends before it
/// starts. A range without an end, or whose end lies at the last byte or behind
/// it, selects everything from its start on; any other just the bytes from its
/// start up to its end.
pub proof fn law_range_selects(content: Seq<u8>, start: nat, end: Option<nat>)
    requires
        content.len() > 0,
    ensures
        selected(start, end, content.len()) is None <==> (start >= content.len() || (end matches Some(
            e,
        ) && e < start)),
        selected(start, end, content.len()) matches Some((s, e)) ==> {
            let given = slice(content, s as int, e - s + 1);
            &&& end is None ==> given == content.skip(start as int)
            &&& end matches Some(w) ==> (w >= content.len() - 1 ==> given == content.skip(
                start as int,
            ))
            &&& end matches Some(w) ==> (w < content.len() ==> given == content.subrange(
                start as int,
                w as int + 1,
            ))
        },
{
    if let Some((s, e)) = selected(start, end, content.len()) {
        let given = slice(content, s as int, e - s + 1);
        if e == content.len() - 1 {
            assert(given =~= content.skip(start as int));
        }
        if let Some(w) = end {
            if w < content.len() {
                assert(given =~= content.subrange(start as int, w as int + 1));
            }
        }
    }
}

/// Two ranges, the second of which starts behind the end of the first, together
/// select what one range over both does.
pub proof fn law_ranges_join(content: Seq<u8>, start: nat, middle: nat, end: Option<nat>)
    requires
        start <= middle,
        middle + 1 < content.len(),
        end matches Some(e) ==> middle < e,
    ensures
        ({
            let first = selected(start, Some(middle), content.len());
            let second = selected(middle + 1, end, content.len());
            let both = selected(start, end, content.len());
            &&& first matches Some((a, b))
            &&& second matches Some((c, d))
            &&& both matches Some((e, f))
            &&& slice(content, a as int, b - a + 1) + slice(content, c as int, d - c + 1) == slice(
                content,
                e as int,
                f - e + 1,
            )
        }),
{
    let first = selected(start, Some(middle), content.len());
    let second = selected(middle + 1, end, content.len());
    let both = selected(start, end, content.len());
    if let (Some((a, b)), Some((c, d)), Some((e, f))) = (first, second, both) {
        assert(slice(content, a as int, b - a + 1) + slice(content, c as int, d - c + 1) =~= slice(
            content,
            e as int,
            f - e + 1,
        ));
    }
}

/// The length that is told of a part is that of the part, and the part starts
/// where it was asked for.
pub proof fn law_window_length(content: Seq<u8>, offset: Option<u64>, size: Option<u64>)
    ensures
        ({
            let (from, n) = window(offset, size, content.len());
            &&& slice(content, from as int, n as int).len() == n
            &&& n > 0 ==> (offset matches Some(o) ==> from == o) && (offset is None ==> from == 0)
            &&& size matches Some(m) ==> n <= m
            &&& offset is None && size is None ==> slice(content, from as int, n as int) == content
            &&& size is None ==> (offset matches Some(o) ==> (o <= content.len() ==> slice(
                content,
                from as int,
                n as int,
            ) == content.skip(o as int)))
        }),
{
    let (from, n) = window(offset, size, content.len());
    if offset is None && size is None {
        assert(slice(content, from as int, n as int) =~= content);
    }
    if size is None {
        if let Some(o) = offset {
            if o <= content.len() {
                assert(slice(content, from as int, n as int) =~= content.skip(o as int));
            }
        }
    }
}

/// Every range header that names a start, with or without an end, is understood
/// as just that.
pub proof fn law_range_request(start: nat, end: nat)
    requires
        start <= u64::MAX,
        end <= u64::MAX,
    ensures
        byte_range("bytes="@ + decimal(start) + "-"@ + decimal(end)) == Some(
            (start, Some(end)),
        ),
        byte_range("bytes="@ + decimal(start) + "-"@) == Some((start, None::<nat>)),
{
    reveal_strlit("bytes=");
    reveal_strlit("-");
    let a = decimal(start);
    let b = decimal(end);
    lemma_decimal_digits(start);
    lemma_decimal_digits(end);
    lemma_digits_plain(a);
    lemma_digits_plain(b);
    law_decimal_round_trip(start, u64::MAX as nat);
    law_decimal_round_trip(end, u64::MAX as nat);
    lemma_split_single(a, '-');
    lemma_split_single(b, '-');
    let closed = "bytes="@ + a + "-"@ + b;
    assert(closed.take(6) =~= "bytes="@);
    assert(closed.skip(6) =~= a.push('-') + b);
    lemma_split_at(a, b, '-');
    assert(split(closed.skip(6), '-') =~= seq![a, b]);
    let open = "bytes="@ + a + "-"@;
    let nothing = Seq::<char>::empty();
    assert(open.take(6) =~= "bytes="@);
    assert(open.skip(6) =~= a.push('-') + nothing);
    lemma_split_at(a, nothing, '-');
    lemma_split_single(nothing, '-');
    assert(split(open.skip(6), '-') =~= seq![a, nothing]);
}

/// A range header that is understood names its unit, and two texts with a hyphen
/// between them: the first denotes the start, and the second the end, or is
/// empty.
pub proof fn law_range_understood(header: Seq<char>)
    ensures
        byte_range(header) matches Some((start, end)) ==> exists|a: Seq<char>, b: Seq<char>|
            header == #[trigger] ("bytes="@ + a + "-"@ + b) && number(a) == Some(start) && (
            match end {
                Some(e) => number(b) == Some(e),
                None => b.len() == 0,
            }),
{
    reveal_strlit("bytes=");
    reveal_strlit("-");
    if byte_range(header) is Some {
        let rest = header.skip(6);
        let parts = split(rest, '-');
        crate::text::law_split(rest, '-');
        let a = parts[0];
        let b = parts[1];
        assert(parts.drop_last() =~= seq![a]);
        assert(crate::text::join(parts.drop_last(), '-') == a);
        assert(rest == a.push('-') + b);
        assert(header =~= header.take(6) + rest);
        assert(header =~= "bytes="@ + a + "-"@ + b);
    }
}

/// The answer to a range names the bytes that it carries: read as the header of a
/// write it names the same bytes.
pub proof fn law_answer_range(start: nat, end: nat, file_size: nat)
    requires
        start <= end <= u64::MAX,
    ensures
        content_span(answer_range(start, end, file_size)) == Ok::<(nat, nat), RangeFault>(
            (start, end),
        ),
        ({
            let pieces = split(answer_range(start, end, file_size), '/');
            pieces.len() == 2 && pieces[1] == decimal(file_size)
        }),
{
    reveal_strlit("bytes ");
    reveal_strlit("-");
    reveal_strlit("/");
    let a = decimal(start);
    let b = decimal(end);
    let c = decimal(file_size);
    lemma_decimal_digits(start);
    lemma_decimal_digits(end);
    lemma_decimal_digits(file_size);
    lemma_digits_plain(a);
    lemma_digits_plain(b);
    lemma_digits_plain(c);
    law_decimal_round_trip(start, u64::MAX as nat);
    law_decimal_round_trip(end, u64::MAX as nat);
    let header = answer_range(start, end, file_size);
    assert(header.take(6) =~= "bytes "@);
    let rest = header.skip(6);
    let span = a.push('-') + b;
    assert(rest =~= span.push('/') + c);
    if span.contains('/') {
        let i = choose|i: int| 0 <= i < span.len() && span[i] == '/';
        if i < a.len() {
            assert(a[i] == '/');
        } else if i > a.len() {
            assert(b[i - a.len() - 1] == '/');
        }
    }
    lemma_split_at(span, c, '/');
    lemma_split_single(span, '/');
    lemma_split_single(c, '/');
    assert(split(rest, '/')[0] == span);
    lemma_split_at(a, b, '-');
    lemma_split_single(a, '-');
    lemma_split_single(b, '-');
    assert(split(span, '-') =~= seq![a, b]);
    let front = "bytes "@ + span;
    assert(header =~= front.push('/') + c);
    if front.contains('/') {
        let i = choose|i: int| 0 <= i < front.len() && front[i] == '/';
        if i >= 6 {
            assert(span[i - 6] == '/');
        }
    }
    lemma_split_at(front, c, '/');
    lemma_split_single(front, '/');
}

/// The header of a write whose last byte lies before its first is refused for
/// that, and one with another unit for its form.
pub proof fn law_content_span_refused(from: nat, to: nat, header: Seq<char>)
    requires
        to < from <= u64::MAX,
    ensures
        content_span(range_header(from, to)) == Err::<(nat, nat), RangeFault>(RangeFault::Order),
        header.len() < 6 ==> content_span(header) == Err::<(nat, nat), RangeFault>(
            RangeFault::Format,
        ),
        content_span(header) matches Ok((a, b)) ==> a <= b <= u64::MAX,
{
    reveal_strlit("bytes ");
    reveal_strlit("-");
    reveal_strlit("/*");
    let a = decimal(from);
    let b = decimal(to);
    lemma_decimal_digits(from);
    lemma_decimal_digits(to);
    lemma_digits_plain(a);
    lemma_digits_plain(b);
    law_decimal_round_trip(from, u64::MAX as nat);
    law_decimal_round_trip(to, u64::MAX as nat);
    let written = range_header(from, to);
    assert(written.take(6) =~= "bytes "@);
    let rest = written.skip(6);
    let span = a.push('-') + b;
    let star = seq!['*'];
    assert(rest =~= span.push('/') + star);
    if span.contains('/') {
        let i = choose|i: int| 0 <= i < span.len() && span[i] == '/';
        if i < a.len() {
            assert(a[i] == '/');
        } else if i > a.len() {
            assert(b[i - a.len() - 1] == '/');
        }
    }
    lemma_split_at(span, star, '/');
    lemma_split_single(span, '/');
    assert(split(rest, '/')[0] == span);
    lemma_split_at(a, b, '-');
    lemma_split_single(a, '-');
    lemma_split_single(b, '-');
    assert(split(span, '-') =~= seq![a, b]);
}

/// The request that writes a part of a file names just the bytes that it carries,
/// as the server understands it, and carries just the data.
pub proof fn law_patch_request(base: Seq<char>, path: Seq<char>, offset: nat, data: Seq<u8>)
    requires
        data.len() > 0,
        offset + data.len() - 1 <= u64::MAX,
    ensures
        ({
            let q = patch_request(base, path, offset, data);
            &&& q.method == Method::Patch
            &&& q.body == BodyView::Bytes(data)
            &&& q.content_range matches Some(header)
            &&& content_span(header) matches Ok((from, to))
            &&& from == offset
            &&& to - from + 1 == data.len()
        }),
{
    law_range_header_round_trip(offset, (offset + data.len() - 1) as nat);
}

/// A part holds as much as was asked for, unless the file ends first, and it ends
/// there then; every byte of it is the one at its place in the file.
pub proof fn law_window_whole(content: Seq<u8>, offset: Option<u64>, size: Option<u64>, i: int)
    ensures
        ({
            let (from, n) = window(offset, size, content.len());
            let part = slice(content, from as int, n as int);
            let at = match offset {
                Some(o) => o as int,
                None => 0int,
            };
            &&& from + n <= content.len()
            &&& at < content.len() ==> from == at
            &&& at >= content.len() ==> n == 0
            &&& at < content.len() ==> (size matches Some(m) ==> n == m || (n < m && from + n
                == content.len()))
            &&& at < content.len() && size is None ==> from + n == content.len()
            &&& 0 <= i < n ==> part[i] == content[at + i]
        }),
{
}

} // verus!
