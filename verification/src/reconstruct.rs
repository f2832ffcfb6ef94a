use vstd::prelude::*;

use crate::error::ProgramRecoverError;

verus! {

/// The bytes that one loader `Write` instruction put into a buffer account,
/// at `offset`.
#[derive(Clone, Debug, PartialEq, Eq)]
pub struct WriteChunk {
    pub offset: usize,
    pub bytes: Vec<u8>,
}

/// One past the last byte that `chunk` writes.
pub open spec fn spec_chunk_end(chunk: WriteChunk) -> int {
    chunk.offset + chunk.bytes@.len()
}

/// Whether the end of `chunk` can be represented as a `usize`.
pub open spec fn chunk_fits(chunk: WriteChunk) -> bool {
    spec_chunk_end(chunk) <= usize::MAX
}

/// Among the first `n` chunks, the index of the first one whose end does
/// not fit in a `usize`.
pub open spec fn first_overflow(chunks: Seq<WriteChunk>, n: nat) -> Option<nat>
    decreases n,
{
    if n == 0 {
        None
    } else {
        match first_overflow(chunks, (n - 1) as nat) {
            Some(i) => Some(i),
            None => if chunk_fits(chunks[n - 1]) {
                None
            } else {
                Some((n - 1) as nat)
            },
        }
    }
}

/// The largest end among the first `n` chunks (0 when `n` is 0).
pub open spec fn max_end(chunks: Seq<WriteChunk>, n: nat) -> nat
    decreases n,
{
    if n == 0 {
        0
    } else {
        let m = max_end(chunks, (n - 1) as nat);
        let e = spec_chunk_end(chunks[n - 1]);
        if e > m {
            e as nat
        } else {
            m
        }
    }
}

/// Whether `chunk` writes the byte at index `i`.
pub open spec fn covers(chunk: WriteChunk, i: int) -> bool {
    chunk.offset <= i < spec_chunk_end(chunk)
}

/// Whether one of the first `n` chunks writes the byte at index `i`.
pub open spec fn written_by(chunks: Seq<WriteChunk>, n: nat, i: int) -> bool
    decreases n,
{
    if n == 0 {
        false
    } else {
        covers(chunks[n - 1], i) || written_by(chunks, (n - 1) as nat, i)
    }
}

/// The byte at index `i` once the first `n` chunks have been applied in
/// order to a zeroed image: the byte of the last of them that covers `i`.
pub open spec fn byte_at(chunks: Seq<WriteChunk>, n: nat, i: int) -> u8
    decreases n,
{
    if n == 0 {
        0
    } else if covers(chunks[n - 1], i) {
        chunks[n - 1].bytes@[i - chunks[n - 1].offset]
    } else {
        byte_at(chunks, (n - 1) as nat, i)
    }
}

/// The image that all chunks produce, as long as the furthest write.
pub open spec fn spec_image(chunks: Seq<WriteChunk>) -> Seq<u8> {
    Seq::new(max_end(chunks, chunks.len()), |i: int| byte_at(chunks, chunks.len(), i))
}

/// Whether `image` starts with the ELF magic number `\x7fELF`.
pub open spec fn has_elf_magic(image: Seq<u8>) -> bool {
    &&& image.len() >= 4
    &&& image[0] == 0x7f
    &&& image[1] == 0x45
    &&& image[2] == 0x4c
    &&& image[3] == 0x46
}

/// The first index below `k` that no chunk writes.
pub open spec fn first_gap(chunks: Seq<WriteChunk>, k: nat) -> Option<nat>
    decreases k,
{
    if k == 0 {
        None
    } else {
        match first_gap(chunks, (k - 1) as nat) {
            Some(g) => Some(g),
            None => if written_by(chunks, chunks.len(), k - 1) {
                None
            } else {
                Some((k - 1) as nat)
            },
        }
    }
}

/// What rebuilding an image from `chunks` gives: the first chunk whose end
/// overflows is reported; without chunks there is nothing to rebuild; the
/// image must start with the ELF magic; the first byte that no chunk wrote is
/// reported; otherwise the image.
pub open spec fn spec_reconstruct(chunks: Seq<WriteChunk>) -> Result<Seq<u8>, ProgramRecoverError> {
    match first_overflow(chunks, chunks.len()) {
        Some(i) => Err(
            ProgramRecoverError::WriteOffsetOverflow {
                offset: chunks[i as int].offset,
                length: chunks[i as int].bytes@.len() as usize,
            },
        ),
        None => if chunks.len() == 0 {
            Err(ProgramRecoverError::NoWriteChunks)
        } else {
            let image = spec_image(chunks);
            if !has_elf_magic(image) {
                Err(ProgramRecoverError::MissingElfMagic)
            } else {
                match first_gap(chunks, image.len()) {
                    Some(g) => Err(ProgramRecoverError::MissingWriteData { first_gap: g as usize }),
                    None => Ok(image),
                }
            }
        },
    }
}

proof fn lemma_first_overflow_stable(chunks: Seq<WriteChunk>, k: nat, m: nat)
    requires
        k <= m,
        first_overflow(chunks, k) is Some,
    ensures
        first_overflow(chunks, m) == first_overflow(chunks, k),
    decreases m - k,
{
    if k < m {
        lemma_first_overflow_stable(chunks, k, (m - 1) as nat);
    }
}

proof fn lemma_no_overflow_all_fit(chunks: Seq<WriteChunk>, n: nat)
    requires
        first_overflow(chunks, n) is None,
    ensures
        forall|i: int| 0 <= i < n ==> chunk_fits(#[trigger] chunks[i]),
    decreases n,
{
    if n > 0 {
        lemma_no_overflow_all_fit(chunks, (n - 1) as nat);
    }
}

proof fn lemma_max_end_bounds(chunks: Seq<WriteChunk>, n: nat)
    ensures
        forall|i: int| 0 <= i < n ==> spec_chunk_end(#[trigger] chunks[i]) <= max_end(chunks, n),
        max_end(chunks, n) == 0 || exists|i: int|
            0 <= i < n && spec_chunk_end(#[trigger] chunks[i]) == max_end(chunks, n),
    decreases n,
{
    if n > 0 {
        lemma_max_end_bounds(chunks, (n - 1) as nat);
        let e = spec_chunk_end(chunks[n - 1]);
        if e > max_end(chunks, (n - 1) as nat) {
            assert(spec_chunk_end(chunks[n - 1]) == max_end(chunks, n));
        }
    }
}

proof fn lemma_first_gap_stable(chunks: Seq<WriteChunk>, k: nat, m: nat)
    requires
        k <= m,
        first_gap(chunks, k) is Some,
    ensures
        first_gap(chunks, m) == first_gap(chunks, k),
    decreases m - k,
{
    if k < m {
        lemma_first_gap_stable(chunks, k, (m - 1) as nat);
    }
}

proof fn lemma_no_gap_all_written(chunks: Seq<WriteChunk>, k: nat)
    requires
        first_gap(chunks, k) is None,
    ensures
        forall|i: int| 0 <= i < k ==> written_by(chunks, chunks.len(), i),
    decreases k,
{
    if k > 0 {
        lemma_no_gap_all_written(chunks, (k - 1) as nat);
    }
}

proof fn lemma_last_cover_decides(chunks: Seq<WriteChunk>, k: int, i: int, n: nat)
    requires
        0 <= k < n <= chunks.len(),
        covers(chunks[k], i),
        forall|j: int| k < j < n ==> !covers(#[trigger] chunks[j], i),
    ensures
        byte_at(chunks, n, i) == chunks[k].bytes@[i - chunks[k].offset],
    decreases n,
{
    if n - 1 > k {
        lemma_last_cover_decides(chunks, k, i, (n - 1) as nat);
    }
}

proof fn lemma_cover_is_written(chunks: Seq<WriteChunk>, k: int, i: int, n: nat)
    requires
        0 <= k < n <= chunks.len(),
        covers(chunks[k], i),
    ensures
        written_by(chunks, n, i),
    decreases n,
{
    if n - 1 > k {
        lemma_cover_is_written(chunks, k, i, (n - 1) as nat);
    }
}

/// Where chunks overlap, the later one wins: in a rebuilt image, a byte that
/// chunk `k` writes and no later chunk writes is the byte of chunk `k`.
pub proof fn law_later_chunk_wins(chunks: Seq<WriteChunk>, k: int, i: int)
    requires
        spec_reconstruct(chunks) is Ok,
        0 <= k < chunks.len(),
        covers(chunks[k], i),
        forall|j: int| k < j < chunks.len() ==> !covers(#[trigger] chunks[j], i),
    ensures
        0 <= i < spec_reconstruct(chunks)->Ok_0.len(),
        spec_reconstruct(chunks)->Ok_0[i] == chunks[k].bytes@[i - chunks[k].offset],
{
    lemma_max_end_bounds(chunks, chunks.len());
    lemma_last_cover_decides(chunks, k, i, chunks.len());
}

/// A rebuilt image is exactly as long as the furthest write, starts with the
/// ELF magic, and every one of its bytes was written by some chunk.
pub proof fn law_image_fully_written(chunks: Seq<WriteChunk>)
    requires
        spec_reconstruct(chunks) is Ok,
    ensures
        ({
            let image = spec_reconstruct(chunks)->Ok_0;
            &&& image == spec_image(chunks)
            &&& image.len() == max_end(chunks, chunks.len())
            &&& has_elf_magic(image)
            &&& forall|k: int| 0 <= k < chunks.len() ==> spec_chunk_end(#[trigger] chunks[k]) <= image.len()
            &&& forall|i: int| 0 <= i < image.len() ==> written_by(chunks, chunks.len(), i)
        }),
{
    lemma_max_end_bounds(chunks, chunks.len());
    lemma_no_gap_all_written(chunks, spec_image(chunks).len());
}

/// Whether no byte is written by both `a` and `b`.
pub open spec fn ranges_disjoint(a: WriteChunk, b: WriteChunk) -> bool {
    forall|i: int| !(covers(a, i) && covers(b, i))
}

proof fn lemma_all_fit_no_overflow(chunks: Seq<WriteChunk>, n: nat)
    requires
        n <= chunks.len(),
        forall|k: int| 0 <= k < n ==> chunk_fits(#[trigger] chunks[k]),
    ensures
        first_overflow(chunks, n) is None,
    decreases n,
{
    if n > 0 {
        lemma_all_fit_no_overflow(chunks, (n - 1) as nat);
    }
}

proof fn lemma_written_has_cover(chunks: Seq<WriteChunk>, n: nat, i: int)
    requires
        n <= chunks.len(),
        written_by(chunks, n, i),
    ensures
        exists|k: int| 0 <= k < n && covers(#[trigger] chunks[k], i),
    decreases n,
{
    if !covers(chunks[n - 1], i) {
        lemma_written_has_cover(chunks, (n - 1) as nat, i);
    }
}

proof fn lemma_unwritten_is_zero(chunks: Seq<WriteChunk>, n: nat, i: int)
    requires
        !written_by(chunks, n, i),
    ensures
        byte_at(chunks, n, i) == 0,
    decreases n,
{
    if n > 0 {
        lemma_unwritten_is_zero(chunks, (n - 1) as nat, i);
    }
}

/// Where every chunk covering `i` is `c`, the byte at `i` is `c`'s.
proof fn lemma_single_cover_decides(chunks: Seq<WriteChunk>, n: nat, i: int, c: WriteChunk)
    requires
        n <= chunks.len(),
        written_by(chunks, n, i),
        forall|k: int| 0 <= k < n && covers(#[trigger] chunks[k], i) ==> chunks[k] == c,
    ensures
        byte_at(chunks, n, i) == c.bytes@[i - c.offset],
    decreases n,
{
    if !covers(chunks[n - 1], i) {
        lemma_single_cover_decides(chunks, (n - 1) as nat, i, c);
    }
}

proof fn lemma_first_gap_same(a: Seq<WriteChunk>, b: Seq<WriteChunk>, k: nat)
    requires
        forall|i: int| 0 <= i < k ==> written_by(a, a.len(), i) == written_by(b, b.len(), i),
    ensures
        first_gap(a, k) == first_gap(b, k),
    decreases k,
{
    if k > 0 {
        lemma_first_gap_same(a, b, (k - 1) as nat);
    }
}

/// Where each chunk of `a` occurs in `b`, a byte that `a` writes is written
/// by `b` too.
proof fn lemma_same_members_same_cover(a: Seq<WriteChunk>, b: Seq<WriteChunk>, i: int)
    requires
        forall|x: WriteChunk| a.contains(x) ==> b.contains(x),
    ensures
        written_by(a, a.len(), i) ==> written_by(b, b.len(), i),
{
    if written_by(a, a.len(), i) {
        lemma_written_has_cover(a, a.len(), i);
        let k = choose|k: int| 0 <= k < a.len() && covers(#[trigger] a[k], i);
        assert(a.contains(a[k]));
        let j = choose|j: int| 0 <= j < b.len() && b[j] == a[k];
        lemma_cover_is_written(b, j, i, b.len());
    }
}

proof fn lemma_same_members_same_max_end(a: Seq<WriteChunk>, b: Seq<WriteChunk>)
    requires
        forall|x: WriteChunk| a.contains(x) ==> b.contains(x),
        forall|x: WriteChunk| b.contains(x) ==> a.contains(x),
    ensures
        max_end(a, a.len()) == max_end(b, b.len()),
{
    lemma_max_end_bounds(a, a.len());
    lemma_max_end_bounds(b, b.len());
    if max_end(a, a.len()) != 0 {
        let k = choose|k: int| 0 <= k < a.len() && spec_chunk_end(#[trigger] a[k]) == max_end(a, a.len());
        assert(a.contains(a[k]));
        let j = choose|j: int| 0 <= j < b.len() && b[j] == a[k];
        assert(spec_chunk_end(b[j]) <= max_end(b, b.len()));
    }
    if max_end(b, b.len()) != 0 {
        let k = choose|k: int| 0 <= k < b.len() && spec_chunk_end(#[trigger] b[k]) == max_end(b, b.len());
        assert(b.contains(b[k]));
        let j = choose|j: int| 0 <= j < a.len() && a[j] == b[k];
        assert(spec_chunk_end(a[j]) <= max_end(a, a.len()));
    }
}

/// Rebuilding does not depend on the order of writes that do not overlap:
/// any reordering of chunks whose ranges are pairwise disjoint, none of them
/// ending beyond `usize`, rebuilds to the same image, or fails the same way.
pub proof fn law_disjoint_chunks_commute(chunks: Seq<WriteChunk>, reordered: Seq<WriteChunk>)
    requires
        reordered.to_multiset() =~= chunks.to_multiset(),
        forall|j: int, k: int|
            0 <= j < k < chunks.len() ==> ranges_disjoint(#[trigger] chunks[j], #[trigger] chunks[k]),
        forall|k: int| 0 <= k < chunks.len() ==> chunk_fits(#[trigger] chunks[k]),
    ensures
        spec_reconstruct(reordered) == spec_reconstruct(chunks),
{
    broadcast use vstd::seq_lib::to_multiset_contains;

    assert forall|x: WriteChunk| chunks.contains(x) implies reordered.contains(x) by {
        assert(chunks.to_multiset().count(x) > 0);
        assert(reordered.to_multiset().count(x) > 0);
    }
    assert forall|x: WriteChunk| reordered.contains(x) implies chunks.contains(x) by {
        assert(reordered.to_multiset().count(x) > 0);
        assert(chunks.to_multiset().count(x) > 0);
    }
    assert forall|k: int| 0 <= k < reordered.len() implies chunk_fits(#[trigger] reordered[k]) by {
        assert(reordered.contains(reordered[k]));
    }
    lemma_all_fit_no_overflow(chunks, chunks.len());
    lemma_all_fit_no_overflow(reordered, reordered.len());
    if chunks.len() == 0 {
        if reordered.len() > 0 {
            assert(reordered.contains(reordered[0]));
        }
    } else {
        assert(chunks.contains(chunks[0]));
    }
    lemma_same_members_same_max_end(chunks, reordered);
    assert forall|i: int| #[trigger] written_by(chunks, chunks.len(), i) == written_by(reordered, reordered.len(), i) by {
        lemma_same_members_same_cover(chunks, reordered, i);
        lemma_same_members_same_cover(reordered, chunks, i);
    }
    assert forall|i: int| 0 <= i < max_end(chunks, chunks.len()) implies #[trigger] byte_at(chunks, chunks.len(), i)
        == byte_at(reordered, reordered.len(), i) by {
        if written_by(chunks, chunks.len(), i) {
            lemma_written_has_cover(chunks, chunks.len(), i);
            let k0 = choose|k: int| 0 <= k < chunks.len() && covers(#[trigger] chunks[k], i);
            let c = chunks[k0];
            assert forall|k: int| 0 <= k < chunks.len() && covers(#[trigger] chunks[k], i) implies chunks[k] == c by {
                if k < k0 {
                    assert(!ranges_disjoint(chunks[k], chunks[k0]));
                } else if k > k0 {
                    assert(!ranges_disjoint(chunks[k0], chunks[k]));
                }
            }
            assert forall|j: int| 0 <= j < reordered.len() && covers(#[trigger] reordered[j], i) implies reordered[j] == c by {
                assert(reordered.contains(reordered[j]));
                let k = choose|k: int| 0 <= k < chunks.len() && chunks[k] == reordered[j];
                assert(covers(chunks[k], i));
            }
            lemma_single_cover_decides(chunks, chunks.len(), i, c);
            lemma_single_cover_decides(reordered, reordered.len(), i, c);
        } else {
            lemma_unwritten_is_zero(chunks, chunks.len(), i);
            lemma_unwritten_is_zero(reordered, reordered.len(), i);
        }
    }
    assert(spec_image(reordered) =~= spec_image(chunks));
    lemma_first_gap_same(chunks, reordered, spec_image(chunks).len());
}

/// A single chunk at offset 0 that starts with the ELF magic rebuilds to
/// exactly its own bytes.
pub proof fn law_single_chunk_is_its_image(chunk: WriteChunk)
    requires
        chunk.offset == 0,
        has_elf_magic(chunk.bytes@),
    ensures
        spec_reconstruct(seq![chunk]) == Ok::<Seq<u8>, ProgramRecoverError>(chunk.bytes@),
{
    let chunks = seq![chunk];
    assert(chunks[0] == chunk);
    assert(chunk.bytes@.len() == chunk.bytes.len());
    assert(first_overflow(chunks, 0) is None);
    assert(first_overflow(chunks, 1) is None);
    assert(max_end(chunks, 0) == 0);
    assert(max_end(chunks, 1) == chunk.bytes@.len());
    assert forall|i: int| 0 <= i < chunk.bytes@.len() implies covers(chunks[0], i) by {}
    assert(spec_image(chunks) =~= chunk.bytes@);
    assert forall|i: int| 0 <= i < chunk.bytes@.len() implies written_by(chunks, 1, i) by {}
    lemma_gap_free(chunks, chunk.bytes@.len());
}

proof fn lemma_gap_free(chunks: Seq<WriteChunk>, k: nat)
    requires
        forall|i: int| 0 <= i < k ==> written_by(chunks, chunks.len(), i),
    ensures
        first_gap(chunks, k) is None,
    decreases k,
{
    if k > 0 {
        lemma_gap_free(chunks, (k - 1) as nat);
    }
}

/// Computes one past the last byte that `chunk` writes, or reports that this
/// position does not fit in a `usize`.
pub fn chunk_end(chunk: &WriteChunk) -> (res: Result<usize, ProgramRecoverError>)
    ensures
        res is Ok <==> chunk_fits(*chunk),
        res matches Ok(end) ==> end == spec_chunk_end(*chunk),
        res matches Err(e) ==> e == (ProgramRecoverError::WriteOffsetOverflow {
            offset: chunk.offset,
            length: chunk.bytes@.len() as usize,
        }),
{
    let length = chunk.bytes.len();
    match chunk.offset.checked_add(length) {
        Some(end) => Ok(end),
        None => Err(ProgramRecoverError::WriteOffsetOverflow { offset: chunk.offset, length }),
    }
}

/// Rebuilds a program image from the historical writes into its buffer.
/// Later chunks overwrite earlier ones where they overlap; the image is as
/// long as the furthest write, must begin with the ELF magic, and must have
/// every byte written by some chunk.
pub fn reconstruct(chunks: &[WriteChunk]) -> (res: Result<Vec<u8>, ProgramRecoverError>)
    ensures
        match res {
            Ok(image) => spec_reconstruct(chunks@) == Ok::<Seq<u8>, ProgramRecoverError>(image@),
            Err(e) => spec_reconstruct(chunks@) == Err::<Seq<u8>, ProgramRecoverError>(e),
        },
{
    let ghost all = chunks@;
    let count = chunks.len();
    let mut final_len: usize = 0;
    let mut i: usize = 0;
    while i < count
        invariant
            count == all.len(),
            all == chunks@,
            i <= count,
            first_overflow(all, i as nat) is None,
            final_len == max_end(all, i as nat),
        decreases count - i,
    {
        let end = match chunk_end(&chunks[i]) {
            Ok(end) => end,
            Err(e) => {
                proof {
                    lemma_first_overflow_stable(all, (i + 1) as nat, count as nat);
                }
                return Err(e);
            },
        };
        if end > final_len {
            final_len = end;
        }
        i = i + 1;
    }
    if count == 0 {
        return Err(ProgramRecoverError::NoWriteChunks);
    }
    proof {
        lemma_no_overflow_all_fit(all, count as nat);
        lemma_max_end_bounds(all, count as nat);
    }

    let mut image: Vec<u8> = vec![0u8; final_len];
    let mut written: Vec<bool> = vec![false; final_len];
    proof {
        assert forall|k: int| 0 <= k < final_len implies image@[k] == byte_at(all, 0, k)
            && written@[k] == written_by(all, 0, k) by {}
    }
    let mut c: usize = 0;
    while c < count
        invariant
            count == all.len(),
            all == chunks@,
            c <= count,
            final_len == max_end(all, count as nat),
            forall|n: int| 0 <= n < count ==> chunk_fits(#[trigger] all[n]),
            forall|n: int| 0 <= n < count ==> spec_chunk_end(#[trigger] all[n]) <= final_len,
            image@.len() == final_len,
            written@.len() == final_len,
            forall|k: int|
                0 <= k < final_len ==> image@[k] == byte_at(all, c as nat, k) && written@[k]
                    == written_by(all, c as nat, k),
        decreases count - c,
    {
        let chunk = &chunks[c];
        assert(chunk_fits(all[c as int]));
        assert(spec_chunk_end(all[c as int]) <= final_len);
        let offset = chunk.offset;
        let length = chunk.bytes.len();
        let mut j: usize = 0;
        while j < length
            invariant
                count == all.len(),
                all == chunks@,
                c < count,
                *chunk == all[c as int],
                offset == chunk.offset,
                length == chunk.bytes@.len(),
                offset + length <= final_len,
                j <= length,
                image@.len() == final_len,
                written@.len() == final_len,
                forall|k: int|
                    0 <= k < final_len ==> if offset <= k < offset + j {
                        image@[k] == chunk.bytes@[k - offset] && written@[k]
                    } else {
                        image@[k] == byte_at(all, c as nat, k) && written@[k] == written_by(
                            all,
                            c as nat,
                            k,
                        )
                    },
            decreases length - j,
        {
            image.set(offset + j, chunk.bytes[j]);
            written.set(offset + j, true);
            j = j + 1;
        }
        proof {
            assert forall|k: int| 0 <= k < final_len implies image@[k] == byte_at(
                all,
                (c + 1) as nat,
                k,
            ) && written@[k] == written_by(all, (c + 1) as nat, k) by {
                assert(covers(all[c as int], k) == (offset <= k < offset + length));
            }
        }
        c = c + 1;
    }
    assert(image@ =~= spec_image(all));

    if !(final_len >= 4 && image[0] == 0x7f && image[1] == 0x45 && image[2] == 0x4c && image[3]
        == 0x46) {
        return Err(ProgramRecoverError::MissingElfMagic);
    }

    assert(has_elf_magic(image@));
    let mut k: usize = 0;
    while k < final_len
        invariant
            k <= final_len,
            written@.len() == final_len,
            all == chunks@,
            count == all.len(),
            forall|m: int| 0 <= m < final_len ==> written@[m] == written_by(all, count as nat, m),
            first_gap(all, k as nat) is None,
            image@ == spec_image(all),
            has_elf_magic(image@),
            final_len == max_end(all, count as nat),
            first_overflow(all, count as nat) is None,
            count > 0,
        decreases final_len - k,
    {
        if !written[k] {
            proof {
                lemma_first_gap_stable(all, (k + 1) as nat, final_len as nat);
            }
            return Err(ProgramRecoverError::MissingWriteData { first_gap: k });
        }
        k = k + 1;
    }
    Ok(image)
}

} // verus!
