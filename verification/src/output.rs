//! The output file as a mathematical object: positional writes into a
//! pre-sized byte array, and the law that writes to disjoint ranges
//! commute.  The file layer performs the same writes on disk; an in-memory
//! sink for tests performs them on a vector.

use vstd::prelude::*;
use crate::range::{
    piece_start, piece_len, lemma_piece_start_le_total, lemma_piece_start_step,
    lemma_piece_start_monotone,
};

verus! {

/// The file after writing `data` at `off`: bytes inside the window take
/// the new values, everything else stays.  Writes never grow the file; a
/// write past the end is cut off at it, as a positional write into a
/// pre-sized file is.
pub open spec fn spec_write_at(file: Seq<u8>, off: int, data: Seq<u8>) -> Seq<u8> {
    Seq::new(
        file.len(),
        |i: int|
            if off <= i < off + data.len() {
                data[i - off]
            } else {
                file[i]
            },
    )
}

/// Writing never changes the file's length.
pub proof fn lemma_write_at_preserves_len(file: Seq<u8>, off: int, data: Seq<u8>)
    ensures
        spec_write_at(file, off, data).len() == file.len(),
{
}

/// Writes to disjoint ranges commute: either order of two writes whose
/// windows do not overlap produces the identical file, so any interleaving
/// of a transfer's disjoint segment writes yields byte-identical output.
pub proof fn lemma_disjoint_writes_commute(
    file: Seq<u8>,
    off1: int,
    data1: Seq<u8>,
    off2: int,
    data2: Seq<u8>,
)
    requires
        off1 + data1.len() <= off2 || off2 + data2.len() <= off1,
    ensures
        spec_write_at(spec_write_at(file, off1, data1), off2, data2) == spec_write_at(
            spec_write_at(file, off2, data2),
            off1,
            data1,
        ),
{
    assert(spec_write_at(spec_write_at(file, off1, data1), off2, data2) =~= spec_write_at(
        spec_write_at(file, off2, data2),
        off1,
        data1,
    ));
}

/// A write inside the window of a fresh pre-sized file of the probed size
/// leaves the length at that size; with `spec_write_at` covering `[0,
/// size)` by a full fetch, the output file's length equals the probed
/// size.
pub proof fn lemma_full_write_fills(size: nat, data: Seq<u8>)
    requires
        data.len() == size,
    ensures
        spec_write_at(Seq::new(size, |i: int| 0u8), 0, data) == data,
{
    assert(spec_write_at(Seq::new(size, |i: int| 0u8), 0, data) =~= data);
}

/// Performs a positional write on an in-memory file.
pub fn write_into(file: &mut Vec<u8>, off: usize, data: &[u8])
    ensures
        final(file)@ == spec_write_at(old(file)@, off as int, data@),
{
    let n = data.len();
    let file_len = file.len();
    let mut i: usize = 0;
    while i < n && off + i < file_len
        invariant
            n == data@.len(),
            file_len == file@.len(),
            file@.len() == old(file)@.len(),
            i <= n,
            off + i <= usize::MAX,
            forall|j: int|
                0 <= j < file@.len() ==> #[trigger] file@[j] == (if off <= j < off + i {
                    data@[j - off]
                } else {
                    old(file)@[j]
                }),
        decreases n - i,
    {
        file.set(off + i, *vstd::slice::slice_index_get(data, i));
        i = i + 1;
    }
    proof {
        assert(file@ =~= spec_write_at(old(file)@, off as int, data@));
    }
}

/// The file after the first `k` segment writes of an even split: piece `i`
/// of the data lands at its piece's offset.
pub open spec fn apply_piece_writes(
    file: Seq<u8>,
    total: u64,
    n: usize,
    datas: Seq<Seq<u8>>,
    k: int,
) -> Seq<u8>
    decreases k,
{
    if k <= 0 {
        file
    } else {
        spec_write_at(
            apply_piece_writes(file, total, n, datas, k - 1),
            piece_start(total, n, k - 1),
            datas[k - 1],
        )
    }
}

/// Writing every piece of an even split, each exactly its piece's length,
/// into a file of the split's total size reconstructs the resource: the
/// final file holds each piece's bytes at its offsets and nothing else.
/// Together with the coverage of the split and the commutation of disjoint
/// writes, any interleaving of a transfer's segment fetches yields the
/// byte-identical resource.
pub proof fn lemma_segmented_writes_reconstruct(
    file: Seq<u8>,
    total: u64,
    n: usize,
    datas: Seq<Seq<u8>>,
)
    requires
        n > 0,
        file.len() == total,
        datas.len() == n,
        forall|i: int| 0 <= i < n ==> (#[trigger] datas[i]).len() == piece_len(total, n, i),
    ensures
        apply_piece_writes(file, total, n, datas, n as int).len() == total,
        forall|i: int, o: int|
            0 <= i < n && 0 <= o < piece_len(total, n, i)
                ==> #[trigger] apply_piece_writes(file, total, n, datas, n as int)[piece_start(
                total,
                n,
                i,
            ) + o] == datas[i][o],
{
    lemma_apply_piece_writes_prefix(file, total, n, datas, n as int);
}

proof fn lemma_apply_piece_writes_prefix(
    file: Seq<u8>,
    total: u64,
    n: usize,
    datas: Seq<Seq<u8>>,
    k: int,
)
    requires
        n > 0,
        0 <= k <= n,
        file.len() == total,
        datas.len() == n,
        forall|i: int| 0 <= i < n ==> (#[trigger] datas[i]).len() == piece_len(total, n, i),
    ensures
        apply_piece_writes(file, total, n, datas, k).len() == total,
        forall|i: int, o: int|
            0 <= i < k && 0 <= o < piece_len(total, n, i) ==> #[trigger] apply_piece_writes(
                file,
                total,
                n,
                datas,
                k,
            )[piece_start(total, n, i) + o] == datas[i][o],
        forall|j: int|
            piece_start(total, n, k) <= j < total ==> #[trigger] apply_piece_writes(
                file,
                total,
                n,
                datas,
                k,
            )[j] == file[j],
    decreases k,
{
    lemma_piece_start_le_total(total, n, k);
    if k == 0 {
        lemma_piece_start_le_total(total, n, 0);
    } else {
        lemma_apply_piece_writes_prefix(file, total, n, datas, k - 1);
        lemma_piece_start_le_total(total, n, k - 1);
        lemma_piece_start_step(total, n, k - 1);
        let prev = apply_piece_writes(file, total, n, datas, k - 1);
        let here = apply_piece_writes(file, total, n, datas, k);
        let s = piece_start(total, n, k - 1);
        assert(here == spec_write_at(prev, s, datas[k - 1]));
        assert forall|i: int, o: int|
            0 <= i < k && 0 <= o < piece_len(total, n, i) implies #[trigger] here[piece_start(
            total,
            n,
            i,
        ) + o] == datas[i][o] by {
            lemma_piece_start_le_total(total, n, i);
            lemma_piece_start_step(total, n, i);
            if i < k - 1 {
                lemma_piece_start_monotone(total, n, i + 1, k - 1);
            }
        }
    }
}

} // verus!
