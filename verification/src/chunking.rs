//! Adaptive chunking: the chunk-size rule and the chunk schedule of a file.
//!
//! A file of `size` bytes is cut into `chunk_count(size, c)` contiguous
//! chunks of `c = spec_chunk_size(size)` bytes each, except the last chunk,
//! which holds the remainder. The lemmas here pin the schedule down: how
//! many chunks there are, how long each one is, and that the chunks
//! concatenate back to the whole file.

use vstd::prelude::*;

verus! {

/// Chunk size for files under 1 MiB.
pub const MIN_CHUNK_SIZE: usize = 65536;

/// Chunk size for files under 100 MiB.
pub const DEFAULT_CHUNK_SIZE: usize = 1048576;

/// Chunk size for all larger files.
pub const MAX_CHUNK_SIZE: usize = 4194304;

/// The chunk-size rule: 64 KiB under 1 MiB, 1 MiB under 100 MiB,
/// 4 MiB otherwise.
pub open spec fn spec_chunk_size(file_size: u64) -> int {
    if file_size < 1048576 {
        MIN_CHUNK_SIZE as int
    } else if file_size < 104857600 {
        DEFAULT_CHUNK_SIZE as int
    } else {
        MAX_CHUNK_SIZE as int
    }
}

/// Picks the chunk size for a file of the given length.
pub fn calculate_chunk_size(file_size: u64) -> (r: usize)
    ensures
        r == spec_chunk_size(file_size),
        0 < r <= MAX_CHUNK_SIZE,
{
    if file_size < 1048576 {
        MIN_CHUNK_SIZE
    } else if file_size < 104857600 {
        DEFAULT_CHUNK_SIZE
    } else {
        MAX_CHUNK_SIZE
    }
}

/// How many chunks a file of `size` bytes yields at chunk size `chunk`:
/// `size / chunk`, rounded up. An empty file yields no chunks.
pub open spec fn chunk_count(size: int, chunk: int) -> int
    recommends
        size >= 0,
        chunk > 0,
{
    (size + chunk - 1) / chunk
}

/// The chunk schedule is exactly `ceil(size / chunk)` chunks: the count is
/// zero only for the empty file, and the file ends strictly inside the last
/// chunk's window.
pub proof fn lemma_chunk_count(size: int, chunk: int)
    requires
        size >= 0,
        chunk > 0,
    ensures
        chunk_count(size, chunk) >= 0,
        chunk_count(size, chunk) == 0 <==> size == 0,
        size > 0 ==> (chunk_count(size, chunk) - 1) * chunk < size,
        size <= chunk_count(size, chunk) * chunk,
        size % chunk == 0 ==> chunk_count(size, chunk) * chunk == size,
{
    let n = chunk_count(size, chunk);
    let r = (size + chunk - 1) % chunk;
    assert(size + chunk - 1 == n * chunk + r && 0 <= r < chunk && n >= 0) by (nonlinear_arith)
        requires
            size >= 0,
            chunk > 0,
            n == (size + chunk - 1) / chunk,
            r == (size + chunk - 1) % chunk,
    ;
    assert((n - 1) * chunk == n * chunk - chunk) by (nonlinear_arith);
    assert(n >= 1 ==> n * chunk >= chunk) by (nonlinear_arith)
        requires
            chunk > 0,
    ;
    assert(n == 0 ==> n * chunk == 0) by (nonlinear_arith);
    if size % chunk == 0 && size > 0 {
        let q = size / chunk;
        assert(size == q * chunk && q >= 0) by (nonlinear_arith)
            requires
                size > 0,
                chunk > 0,
                size % chunk == 0,
                q == size / chunk,
        ;
        // n * chunk - chunk < size <= n * chunk pins q * chunk between the
        // same bounds, so q == n.
        assert(q == n) by (nonlinear_arith)
            requires
                chunk > 0,
                size == q * chunk,
                q >= 0,
                n * chunk - chunk < size,
                size <= n * chunk,
        ;
    }
}

/// How one full or final chunk moves the chunk counter: a full chunk that
/// does not reach the end stays below the count, and a chunk that reaches
/// the end is the last one.
pub proof fn lemma_chunk_step(s: int, c: int, i: int)
    requires
        c > 0,
        0 <= i,
        i * c < s,
    ensures
        (i + 1) * c < s ==> i + 1 < chunk_count(s, c),
        s <= (i + 1) * c ==> chunk_count(s, c) == i + 1,
{
    lemma_chunk_count(s, c);
    let n = chunk_count(s, c);
    assert((i + 1) * c == i * c + c) by (nonlinear_arith);
    if (i + 1) * c < s {
        // n * c >= s > (i + 1) * c forces n > i + 1.
        assert(n > i + 1) by (nonlinear_arith)
            requires
                c > 0,
                s <= n * c,
                (i + 1) * c < s,
        ;
    } else {
        assert(n >= i + 1) by (nonlinear_arith)
            requires
                c > 0,
                i >= 0,
                i * c < s,
                s <= n * c,
        ;
        assert(n <= i + 1) by (nonlinear_arith)
            requires
                c > 0,
                s <= (i + 1) * c,
                (n - 1) * c < s,
        ;
    }
}

/// Chunk `i` of file contents `f` at chunk size `chunk`: the byte range
/// from `i * chunk` to the next chunk boundary or the end of the file,
/// whichever comes first.
pub open spec fn chunk_at(f: Seq<u8>, chunk: int, i: int) -> Seq<u8>
    recommends
        chunk > 0,
        0 <= i < chunk_count(f.len() as int, chunk),
{
    f.subrange(
        i * chunk,
        if (i + 1) * chunk <= f.len() {
            (i + 1) * chunk
        } else {
            f.len() as int
        },
    )
}

/// Every chunk before the last is full, and the last chunk holds exactly
/// the remainder `size - (count - 1) * chunk`.
pub proof fn lemma_chunk_lens(f: Seq<u8>, chunk: int, i: int)
    requires
        chunk > 0,
        0 <= i < chunk_count(f.len() as int, chunk),
    ensures
        i < chunk_count(f.len() as int, chunk) - 1 ==> chunk_at(f, chunk, i).len() == chunk,
        i == chunk_count(f.len() as int, chunk) - 1 ==> chunk_at(f, chunk, i).len() == f.len()
            - (chunk_count(f.len() as int, chunk) - 1) * chunk,
        chunk_at(f, chunk, i).len() > 0,
{
    let size = f.len() as int;
    let n = chunk_count(size, chunk);
    lemma_chunk_count(size, chunk);
    assert(i * chunk >= 0 && (i + 1) * chunk == i * chunk + chunk) by (nonlinear_arith)
        requires
            i >= 0,
            chunk > 0,
    ;
    assert(size > 0);
    if i < n - 1 {
        assert((i + 1) * chunk <= (n - 1) * chunk) by (nonlinear_arith)
            requires
                i + 1 <= n - 1,
                chunk > 0,
        ;
        assert((n - 1) * chunk < size);
    } else {
        assert(i * chunk == (n - 1) * chunk) by (nonlinear_arith)
            requires
                i == n - 1,
        ;
        assert(n * chunk == (n - 1) * chunk + chunk) by (nonlinear_arith);
        assert(i * chunk < size);
        assert(size <= (i + 1) * chunk);
    }
}

/// The concatenation of the first `n` chunks of `f`.
pub open spec fn concat_chunks(f: Seq<u8>, chunk: int, n: int) -> Seq<u8>
    recommends
        chunk > 0,
        0 <= n <= chunk_count(f.len() as int, chunk),
    decreases n,
{
    if n <= 0 {
        Seq::empty()
    } else {
        concat_chunks(f, chunk, n - 1) + chunk_at(f, chunk, n - 1)
    }
}

/// The first `n` chunks of `f` concatenate to the prefix of `f` that they
/// cover.
pub proof fn lemma_concat_chunks_prefix(f: Seq<u8>, chunk: int, n: int)
    requires
        chunk > 0,
        0 <= n <= chunk_count(f.len() as int, chunk),
    ensures
        concat_chunks(f, chunk, n) == f.subrange(
            0,
            if n * chunk <= f.len() {
                n * chunk
            } else {
                f.len() as int
            },
        ),
    decreases n,
{
    let size = f.len() as int;
    lemma_chunk_count(size, chunk);
    if n == 0 {
        assert(n * chunk == 0) by (nonlinear_arith)
            requires
                n == 0,
        ;
        assert(concat_chunks(f, chunk, 0) =~= f.subrange(0, 0));
    } else {
        lemma_concat_chunks_prefix(f, chunk, n - 1);
        let prev = (n - 1) * chunk;
        let last = (chunk_count(size, chunk) - 1) * chunk;
        assert(prev >= 0 && n * chunk == prev + chunk) by (nonlinear_arith)
            requires
                n >= 1,
                chunk > 0,
                prev == (n - 1) * chunk,
        ;
        assert(size > 0);
        assert(prev <= last) by (nonlinear_arith)
            requires
                n - 1 <= chunk_count(size, chunk) - 1,
                chunk > 0,
                prev == (n - 1) * chunk,
                last == (chunk_count(size, chunk) - 1) * chunk,
        ;
        assert(last < size);
        assert(prev < size);
        let end = if n * chunk <= size {
            n * chunk
        } else {
            size
        };
        assert(concat_chunks(f, chunk, n) =~= f.subrange(0, end));
    }
}

/// All chunks of `f` together restore `f` byte for byte.
pub proof fn lemma_concat_chunks_all(f: Seq<u8>, chunk: int)
    requires
        chunk > 0,
    ensures
        concat_chunks(f, chunk, chunk_count(f.len() as int, chunk)) == f,
{
    let size = f.len() as int;
    let n = chunk_count(size, chunk);
    lemma_chunk_count(size, chunk);
    lemma_concat_chunks_prefix(f, chunk, n);
    assert(f.subrange(0, size) =~= f);
}

} // verus!
