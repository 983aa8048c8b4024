//! Pieces of byte sequences: taking one out, and writing one in.

use vstd::prelude::*;

verus! {

/// The `n` bytes of `data` from `from` on, as far as there are any.
pub open spec fn slice(data: Seq<u8>, from: int, n: int) -> Seq<u8> {
    let len = data.len() as int;
    let start = if from < len {
        from
    } else {
        len
    };
    let end = if from + n < len {
        from + n
    } else {
        len
    };
    data.subrange(start, end)
}

/// `data` with `piece` written at `offset`: what lay there is overwritten, and a
/// gap behind the end is filled with zeros.
pub open spec fn spliced(data: Seq<u8>, offset: int, piece: Seq<u8>) -> Seq<u8> {
    let end = offset + piece.len();
    let len = if end > data.len() {
        end
    } else {
        data.len() as int
    };
    Seq::new(
        len as nat,
        |i: int|
            if offset <= i < end {
                piece[i - offset]
            } else if i < data.len() {
                data[i]
            } else {
                0u8
            },
    )
}

/// The `n` bytes of `data` from `from` on, as far as there are any.
pub fn slice_of(data: &Vec<u8>, from: u64, n: u64) -> (r: Vec<u8>)
    ensures
        r@ == slice(data@, from as int, n as int),
        forall|i: int| 0 <= i < r@.len() ==> #[trigger] r@[i] == data@[from + i],
        r@.len() <= n,
        from + n <= data@.len() ==> r@.len() == n,
        from <= data@.len() < from + n ==> r@.len() == data@.len() - from,
        data@.len() <= from ==> r@.len() == 0,
{
    let len: usize = data.len();
    let start: usize = if from < len as u64 {
        from as usize
    } else {
        len
    };
    let end: usize = if from as u128 + (n as u128) < len as u128 {
        (from + n) as usize
    } else {
        len
    };
    vstd::slice::slice_to_vec(vstd::slice::slice_subrange(data.as_slice(), start, end))
}

/// A copy of `data`.
pub fn copy_of(data: &Vec<u8>) -> (r: Vec<u8>)
    ensures
        r@ == data@,
{
    vstd::slice::slice_to_vec(data.as_slice())
}

/// Writes `piece` into `data` at `offset`.
pub fn splice(data: &mut Vec<u8>, offset: usize, piece: &Vec<u8>)
    requires
        offset + piece@.len() <= usize::MAX,
        piece@.len() > 0 || offset <= old(data)@.len(),
    ensures
        final(data)@ == spliced(old(data)@, offset as int, piece@),
        forall|i: int| 0 <= i < piece@.len() ==> final(data)@[offset + i] == #[trigger] piece@[i],
        forall|i: int|
            0 <= i < old(data)@.len() && !(offset <= i < offset + piece@.len()) ==> final(data)@[i]
                == #[trigger] old(data)@[i],
        final(data)@.len() >= old(data)@.len(),
{
    let ghost before = data@;
    let end: usize = offset + piece.len();
    if end > data.len() {
        data.resize(end, 0u8);
    }
    for i in 0..piece.len()
        invariant
            end == offset + piece@.len(),
            data@.len() == spliced(before, offset as int, piece@).len(),
            end <= data@.len(),
            forall|k: int|
                0 <= k < data@.len() && !(offset + i <= k < end) ==> data@[k] == spliced(
                    before,
                    offset as int,
                    piece@,
                )[k],
    {
        data.set(offset + i, piece[i]);
    }
    assert(data@ =~= spliced(before, offset as int, piece@));
    assert forall|i: int| 0 <= i < piece@.len() implies data@[offset + i]
        == #[trigger] piece@[i] by {
        assert(spliced(before, offset as int, piece@)[offset + i] == piece@[i]);
    }
}

/// What was written is what is read back.
pub proof fn law_write_then_read(data: Seq<u8>, offset: nat, piece: Seq<u8>)
    ensures
        slice(spliced(data, offset as int, piece), offset as int, piece.len() as int) == piece,
{
    assert(slice(spliced(data, offset as int, piece), offset as int, piece.len() as int) =~= piece);
}

/// A write leaves the bytes before it and behind it as they were.
pub proof fn law_write_elsewhere(data: Seq<u8>, offset: nat, piece: Seq<u8>, from: nat, n: nat)
    requires
        from + n <= data.len(),
        from + n <= offset || offset + piece.len() <= from,
    ensures
        slice(spliced(data, offset as int, piece), from as int, n as int) == slice(
            data,
            from as int,
            n as int,
        ),
{
    assert(slice(spliced(data, offset as int, piece), from as int, n as int) =~= slice(
        data,
        from as int,
        n as int,
    ));
}

/// Two writes, the second of which starts where the first ends, are one write of
/// both pieces.
pub proof fn law_adjacent_writes(data: Seq<u8>, offset: nat, first: Seq<u8>, second: Seq<u8>)
    ensures
        spliced(spliced(data, offset as int, first), (offset + first.len()) as int, second)
            == spliced(data, offset as int, first + second),
{
    assert(spliced(spliced(data, offset as int, first), (offset + first.len()) as int, second)
        =~= spliced(data, offset as int, first + second));
}

/// A piece of a byte sequence holds the bytes that stand there, one for one: as
/// many as were asked for, unless the sequence ends before.
pub proof fn law_slice(data: Seq<u8>, from: nat, n: nat)
    ensures
        forall|i: int|
            0 <= i < slice(data, from as int, n as int).len() ==> #[trigger] slice(
                data,
                from as int,
                n as int,
            )[i] == data[from + i],
        from + n <= data.len() ==> slice(data, from as int, n as int).len() == n,
        from <= data.len() < from + n ==> slice(data, from as int, n as int) == data.skip(
            from as int,
        ),
        data.len() <= from ==> slice(data, from as int, n as int).len() == 0,
{
    if from <= data.len() < from + n {
        assert(slice(data, from as int, n as int) =~= data.skip(from as int));
    }
}

/// Two pieces, the second of which starts where the first ends, are one piece.
pub proof fn law_slices_join(data: Seq<u8>, from: nat, first: nat, second: nat)
    ensures
        slice(data, from as int, first as int) + slice(data, (from + first) as int, second as int)
            == slice(data, from as int, (first + second) as int),
{
    assert(slice(data, from as int, first as int) + slice(
        data,
        (from + first) as int,
        second as int,
    ) =~= slice(data, from as int, (first + second) as int));
}

/// A write makes a sequence as long as it has to be and no longer, and what lies
/// between the end of the sequence and the write are zeros.
pub proof fn law_write_extends(data: Seq<u8>, offset: nat, piece: Seq<u8>)
    ensures
        spliced(data, offset as int, piece).len() >= data.len(),
        spliced(data, offset as int, piece).len() >= offset + piece.len(),
        spliced(data, offset as int, piece).len() == data.len() || spliced(
            data,
            offset as int,
            piece,
        ).len() == offset + piece.len(),
        forall|i: int|
            data.len() <= i < offset && i < spliced(data, offset as int, piece).len()
                ==> #[trigger] spliced(data, offset as int, piece)[i] == 0,
{
}

} // verus!
