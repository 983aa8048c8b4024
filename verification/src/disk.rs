//! A file that is open, as far as the servers make use of one: what it holds, and
//! the place in it from which on is read and written.

use vstd::prelude::*;

use crate::bytes::{law_adjacent_writes, slice, spliced};

verus! {

/// A file that is open.
#[verifier::ext_equal]
pub struct OpenFile {
    pub content: Seq<u8>,
    pub at: nat,
}

/// How much is left of one thing to do.
pub open spec fn left(open: bool) -> nat {
    if open {
        1
    } else {
        0
    }
}

/// The file when it was just opened.
pub open spec fn begun(content: Seq<u8>) -> OpenFile {
    OpenFile { content, at: 0 }
}

/// The file once `data` was written into it. Nothing to write changes nothing,
/// even behind the end.
pub open spec fn took_in(f: OpenFile, data: Seq<u8>) -> OpenFile {
    if data.len() == 0 {
        f
    } else {
        OpenFile { content: spliced(f.content, f.at as int, data), at: f.at + data.len() }
    }
}

/// The file once the pieces were written into it, one after another.
pub open spec fn took_in_all(f: OpenFile, pieces: Seq<Seq<u8>>) -> OpenFile
    decreases pieces.len(),
{
    if pieces.len() == 0 {
        f
    } else {
        took_in(took_in_all(f, pieces.drop_last()), pieces.last())
    }
}

/// The next `n` bytes, or as many as there are.
pub open spec fn rest(f: OpenFile, n: nat) -> Seq<u8> {
    slice(f.content, f.at as int, n as int)
}

/// The contents once the file was made `len` bytes long.
pub open spec fn resized(content: Seq<u8>, len: nat) -> Seq<u8> {
    Seq::new(
        len,
        |i: int|
            if i < content.len() {
                content[i]
            } else {
                0u8
            },
    )
}

/// It makes no difference in which pieces the data come.
pub proof fn law_pieces_are_one(f: OpenFile, pieces: Seq<Seq<u8>>)
    ensures
        took_in_all(f, pieces) == took_in(f, pieces.flatten_alt()),
    decreases pieces.len(),
{
    if pieces.len() > 0 {
        law_pieces_are_one(f, pieces.drop_last());
        let first = pieces.drop_last().flatten_alt();
        let second = pieces.last();
        law_adjacent_writes(f.content, f.at, first, second);
        if first.len() == 0 {
            assert(first + second =~= second);
        }
        if second.len() == 0 {
            assert(first + second =~= first);
        }
    }
}

/// A file that was made longer holds zeros behind what it held, and one that was
/// made shorter what is left of it.
pub proof fn law_resized(content: Seq<u8>, len: nat, from: nat, n: nat)
    requires
        from + n <= len,
    ensures
        resized(content, len).len() == len,
        from + n <= content.len() ==> slice(resized(content, len), from as int, n as int) == slice(
            content,
            from as int,
            n as int,
        ),
        from >= content.len() ==> slice(resized(content, len), from as int, n as int) == Seq::new(
            n,
            |i: int| 0u8,
        ),
{
    if from + n <= content.len() {
        assert(slice(resized(content, len), from as int, n as int) =~= slice(
            content,
            from as int,
            n as int,
        ));
    }
    if from >= content.len() {
        assert(slice(resized(content, len), from as int, n as int) =~= Seq::new(n, |i: int| 0u8));
    }
}

/// What is written into an open file is found where the file stood, and the file
/// stands behind it; what is read from a file that was just opened is what it
/// holds from the beginning.
pub proof fn law_open_file(f: OpenFile, data: Seq<u8>, n: nat)
    ensures
        took_in(f, data).at == f.at + data.len(),
        rest(OpenFile { at: f.at, ..took_in(f, data) }, data.len()) == data,
        data.len() == 0 ==> took_in(f, data).content == f.content,
        f.content.len() <= n ==> rest(begun(f.content), n) == f.content,
        forall|i: int|
            0 <= i < rest(f, n).len() ==> #[trigger] rest(f, n)[i] == f.content[f.at + i],
{
    if data.len() > 0 {
        assert(rest(OpenFile { at: f.at, ..took_in(f, data) }, data.len()) =~= data);
    } else {
        assert(rest(f, 0) =~= data);
    }
    if f.content.len() <= n {
        assert(rest(begun(f.content), n) =~= f.content);
    }
}

} // verus!
