//! Chunked copy semantics. A file is streamed as a sequence of chunks of at
//! most `chunk_size` bytes; each chunk is written in full and reported as one
//! progress delta, and a final zero-length chunk ends the stream. This module
//! states that model and proves the copy laws over it: the chunk size never
//! affects the bytes written, only how many progress deltas there are.

use vstd::prelude::*;

verus! {

/// `data` split into successive chunks of `c` bytes, the last one shorter.
/// Empty data splits into no chunks.
pub open spec fn chunk_split(data: Seq<u8>, c: int) -> Seq<Seq<u8>>
    decreases data.len(),
{
    if c <= 0 {
        Seq::empty()
    } else if data.len() == 0 {
        Seq::empty()
    } else if data.len() <= c {
        seq![data]
    } else {
        seq![data.subrange(0, c)] + chunk_split(data.subrange(c, data.len() as int), c)
    }
}

/// The chunks, glued back together in order.
pub open spec fn concat_chunks(cs: Seq<Seq<u8>>) -> Seq<u8>
    decreases cs.len(),
{
    if cs.len() == 0 {
        Seq::empty()
    } else {
        cs[0] + concat_chunks(cs.subrange(1, cs.len() as int))
    }
}

/// The progress deltas of copying `n` bytes in chunks of `c`: one delta per
/// chunk read, and a final zero delta for the empty read that ends the loop.
pub open spec fn chunk_deltas(n: int, c: int) -> Seq<int>
    decreases n,
{
    if n <= 0 || c <= 0 {
        seq![0int]
    } else if n <= c {
        seq![n, 0int]
    } else {
        seq![c] + chunk_deltas(n - c, c)
    }
}

/// The sum of a sequence of deltas.
pub open spec fn sum_deltas(s: Seq<int>) -> int
    decreases s.len(),
{
    if s.len() == 0 {
        0
    } else {
        s[0] + sum_deltas(s.subrange(1, s.len() as int))
    }
}

/// Splitting into chunks and concatenating them restores the data: a chunked
/// copy writes exactly the bytes of its source.
pub proof fn lemma_chunks_rejoin(data: Seq<u8>, c: int)
    requires
        c >= 1,
    ensures
        concat_chunks(chunk_split(data, c)) == data,
    decreases data.len(),
{
    if data.len() == 0 {
        assert(concat_chunks(chunk_split(data, c)) =~= data);
    } else if data.len() <= c {
        let cs = chunk_split(data, c);
        assert(cs.subrange(1, cs.len() as int) =~= Seq::<Seq<u8>>::empty());
        assert(concat_chunks(Seq::<Seq<u8>>::empty()) =~= Seq::<u8>::empty());
        assert(concat_chunks(cs) == cs[0] + concat_chunks(cs.subrange(1, cs.len() as int)));
        assert(concat_chunks(cs) =~= data);
    } else {
        let rest = data.subrange(c, data.len() as int);
        lemma_chunks_rejoin(rest, c);
        let cs = chunk_split(data, c);
        assert(cs.subrange(1, cs.len() as int) =~= chunk_split(rest, c));
        assert(concat_chunks(cs) =~= data.subrange(0, c) + rest);
        assert(data.subrange(0, c) + rest =~= data);
    }
}

/// The chunk size does not affect the copied artifact: any two chunk sizes
/// write the same bytes, differing only in how many progress deltas occur.
pub proof fn lemma_chunk_size_immaterial(data: Seq<u8>, c1: int, c2: int)
    requires
        c1 >= 1,
        c2 >= 1,
    ensures
        concat_chunks(chunk_split(data, c1)) == concat_chunks(chunk_split(data, c2)),
{
    lemma_chunks_rejoin(data, c1);
    lemma_chunks_rejoin(data, c2);
}

/// Copying is idempotent: copying the bytes a first copy produced yields the
/// same bytes again, so a second run over the same source leaves the
/// destination exactly as one run does.
pub proof fn lemma_copy_idempotent(data: Seq<u8>, c: int)
    requires
        c >= 1,
    ensures
        concat_chunks(chunk_split(concat_chunks(chunk_split(data, c)), c)) == concat_chunks(
            chunk_split(data, c),
        ),
{
    lemma_chunks_rejoin(data, c);
}

/// The progress deltas of one file sum to exactly its size.
pub proof fn lemma_deltas_sum(n: int, c: int)
    requires
        n >= 0,
        c >= 1,
    ensures
        sum_deltas(chunk_deltas(n, c)) == n,
    decreases n,
{
    assert(sum_deltas(Seq::<int>::empty()) == 0);
    assert(seq![0int].subrange(1, 1) =~= Seq::<int>::empty());
    assert(sum_deltas(seq![0int]) == 0);
    if n == 0 {
        let s = chunk_deltas(n, c);
        assert(s =~= seq![0int]);
    } else if n <= c {
        let s = chunk_deltas(n, c);
        assert(s.subrange(1, s.len() as int) =~= seq![0int]);
        assert(sum_deltas(s) == s[0] + sum_deltas(s.subrange(1, s.len() as int)));
    } else {
        lemma_deltas_sum(n - c, c);
        let s = chunk_deltas(n, c);
        assert(s.subrange(1, s.len() as int) =~= chunk_deltas(n - c, c));
    }
}

/// A zero-byte source produces exactly one progress delta, the zero-length
/// terminal chunk, and writes nothing.
pub proof fn lemma_zero_byte_copy(c: int)
    requires
        c >= 1,
    ensures
        chunk_deltas(0, c) == seq![0int],
        concat_chunks(chunk_split(Seq::<u8>::empty(), c)) == Seq::<u8>::empty(),
{
    lemma_chunks_rejoin(Seq::<u8>::empty(), c);
}

/// The sequence of ints a delta vector denotes.
pub open spec fn deltas_as_ints(s: Seq<usize>) -> Seq<int> {
    Seq::new(s.len(), |i: int| s[i] as int)
}

/// Copies `data` in chunks of `chunk_size` bytes, in memory. Returns the
/// bytes written — always exactly the source bytes — and the progress deltas,
/// one per chunk read plus the terminal zero-length read, exactly as a
/// streaming copy of a file of the same contents reports them.
pub fn copy_in_chunks_bytes(data: &Vec<u8>, chunk_size: usize) -> (r: (Vec<u8>, Vec<usize>))
    requires
        chunk_size >= 1,
    ensures
        r.0@ == data@,
        deltas_as_ints(r.1@) == chunk_deltas(data@.len() as int, chunk_size as int),
{
    let n = data.len();
    let mut out: Vec<u8> = Vec::new();
    let mut deltas: Vec<usize> = Vec::new();
    let mut pos: usize = 0;
    while pos < n
        invariant
            pos <= n,
            n == data@.len(),
            chunk_size >= 1,
            out@ == data@.subrange(0, pos as int),
            chunk_deltas(n as int, chunk_size as int) == deltas_as_ints(deltas@) + chunk_deltas(
                n - pos,
                chunk_size as int,
            ),
        decreases n - pos,
    {
        let take: usize = if n - pos < chunk_size {
            n - pos
        } else {
            chunk_size
        };
        let mut j: usize = 0;
        while j < take
            invariant
                j <= take,
                pos + take <= n,
                n == data@.len(),
                out@ == data@.subrange(0, pos + j),
            decreases take - j,
        {
            out.push(data[pos + j]);
            proof {
                assert(out@ =~= data@.subrange(0, pos + j + 1));
            }
            j += 1;
        }
        deltas.push(take);
        proof {
            assert(deltas_as_ints(deltas@) =~= deltas_as_ints(deltas@.subrange(
                0,
                deltas@.len() - 1,
            )).push(take as int));
            assert(deltas@.subrange(0, deltas@.len() - 1) =~= deltas@.drop_last());
            assert(chunk_deltas(n as int, chunk_size as int) =~= deltas_as_ints(deltas@)
                + chunk_deltas(n - pos - take, chunk_size as int));
        }
        pos += take;
    }
    deltas.push(0);
    proof {
        assert(out@ =~= data@);
        assert(chunk_deltas(0int, chunk_size as int) =~= seq![0int]);
        assert(deltas_as_ints(deltas@) =~= chunk_deltas(n as int, chunk_size as int));
    }
    (out, deltas)
}

} // verus!
