//! Lines as byte strings, and splitting a file's contents into lines.

use vstd::prelude::*;

verus! {

/// The byte that ends a line.
pub const NEWLINE: u8 = 10u8;

/// The abstract value of a sequence of lines.
pub open spec fn lines_view(lines: Seq<Vec<u8>>) -> Seq<Seq<u8>> {
    lines.map_values(|l: Vec<u8>| l@)
}

/// A line holds a newline at most as its last byte.
pub open spec fn newline_only_at_end(line: Seq<u8>) -> bool {
    forall|k: int| 0 <= k < line.len() - 1 ==> line[k] != NEWLINE
}

/// `pieces` is how `split_inclusive` at newlines cuts a byte string: every
/// piece is non-empty, holds a newline at most at its end, and every piece
/// but the last ends with a newline.
pub open spec fn is_line_split(pieces: Seq<Seq<u8>>) -> bool {
    forall|i: int|
        0 <= i < pieces.len() ==> {
            &&& #[trigger] pieces[i].len() > 0
            &&& newline_only_at_end(pieces[i])
            &&& i < pieces.len() - 1 ==> pieces[i].last() == NEWLINE
        }
}

/// A copy of a line.
pub fn copy_line(line: &Vec<u8>) -> (copy: Vec<u8>)
    ensures
        copy@ == line@,
{
    let mut copy: Vec<u8> = Vec::new();
    let mut i: usize = 0;
    while i < line.len()
        invariant
            i <= line.len(),
            copy@ == line@.take(i as int),
        decreases line.len() - i,
    {
        copy.push(line[i]);
        i = i + 1;
        assert(copy@ =~= line@.take(i as int));
    }
    assert(line@.take(i as int) =~= line@);
    copy
}

/// Splits `contents` into lines, each keeping its terminating newline; a last
/// line without a newline is kept as it is.
pub fn split(contents: &[u8]) -> (pieces: Vec<Vec<u8>>)
    ensures
        lines_view(pieces@).flatten() == contents@,
        is_line_split(lines_view(pieces@)),
{
    broadcast use Seq::lemma_flatten_push;

    let mut pieces: Vec<Vec<u8>> = Vec::new();
    let mut cur: Vec<u8> = Vec::new();
    let mut i: usize = 0;
    while i < contents.len()
        invariant
            i <= contents.len(),
            lines_view(pieces@).flatten() + cur@ == contents@.take(i as int),
            forall|k: int| 0 <= k < cur@.len() ==> cur@[k] != NEWLINE,
            forall|p: int|
                0 <= p < pieces@.len() ==> {
                    &&& #[trigger] pieces@[p]@.len() > 0
                    &&& newline_only_at_end(pieces@[p]@)
                    &&& pieces@[p]@.last() == NEWLINE
                },
        decreases contents.len() - i,
    {
        let b = contents[i];
        let ghost before = lines_view(pieces@).flatten() + cur@;
        cur.push(b);
        assert(contents@.take(i + 1) =~= contents@.take(i as int).push(b));
        assert(lines_view(pieces@).flatten() + cur@ =~= before.push(b));
        if b == NEWLINE {
            let ghost old_pieces = pieces@;
            let ghost piece = cur@;
            pieces.push(cur);
            assert(lines_view(pieces@) =~= lines_view(old_pieces).push(piece));
            cur = Vec::new();
            proof { lines_view(old_pieces).lemma_flatten_push(piece); }
            assert(lines_view(pieces@).flatten() + cur@ =~= lines_view(old_pieces).flatten() + piece);
        }
        i = i + 1;
    }
    assert(contents@.take(i as int) =~= contents@);
    if cur.len() > 0 {
        let ghost old_pieces = pieces@;
        let ghost piece = cur@;
        pieces.push(cur);
        assert(lines_view(pieces@) =~= lines_view(old_pieces).push(piece));
        proof { lines_view(old_pieces).lemma_flatten_push(piece); }
    } else {
        assert(cur@ =~= Seq::<u8>::empty());
        assert(lines_view(pieces@).flatten() + cur@ =~= lines_view(pieces@).flatten());
    }
    pieces
}

} // verus!
