//! Splitting work lists into bounded batches.

use vstd::prelude::*;

verus! {

/// The consecutive chunks of `s`, each of length `n` except possibly the
/// last, which holds the remainder. A chunk size of zero yields no chunks.
pub open spec fn chunks_of<T>(s: Seq<T>, n: nat) -> Seq<Seq<T>>
    decreases s.len(),
{
    if n == 0 || s.len() == 0 {
        Seq::empty()
    } else if s.len() <= n {
        seq![s]
    } else {
        seq![s.take(n as int)] + chunks_of(s.skip(n as int), n)
    }
}

/// The contents of each batch of `batches`, in order.
pub open spec fn batch_views<T>(batches: Seq<Vec<T>>) -> Seq<Seq<T>> {
    Seq::new(batches.len(), |i: int| batches[i]@)
}

/// The concatenation of `parts`, in order.
pub open spec fn concat_all<T>(parts: Seq<Seq<T>>) -> Seq<T>
    decreases parts.len(),
{
    if parts.len() == 0 {
        Seq::empty()
    } else {
        parts[0] + concat_all(parts.drop_first())
    }
}

/// The number of batches needed for `len` items at `n` per batch.
pub open spec fn batch_count(len: nat, n: nat) -> nat {
    if n == 0 {
        0
    } else {
        ((len + n - 1) / (n as int)) as nat
    }
}

/// Chunking loses nothing and reorders nothing: the chunks, laid end to
/// end, are the sequence that was chunked.
pub proof fn lemma_chunks_concat<T>(s: Seq<T>, n: nat)
    requires
        n > 0,
    ensures
        concat_all(chunks_of(s, n)) == s,
    decreases s.len(),
{
    if s.len() == 0 {
        assert(concat_all(chunks_of(s, n)) =~= s);
    } else if s.len() <= n {
        let c = chunks_of(s, n);
        assert(c.drop_first() =~= Seq::<Seq<T>>::empty());
        assert(concat_all(c.drop_first()) =~= Seq::<T>::empty());
        assert(concat_all(c) =~= s);
    } else {
        let c = chunks_of(s, n);
        lemma_chunks_concat(s.skip(n as int), n);
        assert(c.drop_first() =~= chunks_of(s.skip(n as int), n));
        assert(concat_all(c) =~= s.take(n as int) + s.skip(n as int));
        assert(s.take(n as int) + s.skip(n as int) =~= s);
    }
}

/// Every chunk holds at least one and at most `n` items, and every chunk
/// but the last holds exactly `n`.
pub proof fn lemma_chunks_bounded<T>(s: Seq<T>, n: nat, i: int)
    requires
        n > 0,
        0 <= i < chunks_of(s, n).len(),
    ensures
        1 <= chunks_of(s, n)[i].len() <= n,
        i + 1 < chunks_of(s, n).len() ==> chunks_of(s, n)[i].len() == n,
    decreases s.len(),
{
    if s.len() == 0 {
    } else if s.len() <= n {
    } else {
        if i > 0 {
            lemma_chunks_bounded(s.skip(n as int), n, i - 1);
        }
    }
}

/// The number of chunks is the length divided by the chunk size, rounded up.
pub proof fn lemma_chunks_count<T>(s: Seq<T>, n: nat)
    requires
        n > 0,
    ensures
        chunks_of(s, n).len() == batch_count(s.len(), n),
    decreases s.len(),
{
    let len = s.len() as int;
    let m = n as int;
    if s.len() == 0 {
        assert((0 + m - 1) / m == 0) by (nonlinear_arith)
            requires
                m > 0,
        ;
    } else if s.len() <= n {
        assert((len + m - 1) / m == 1) by (nonlinear_arith)
            requires
                0 < len <= m,
        ;
    } else {
        lemma_chunks_count(s.skip(m), n);
        assert((len + m - 1) / m == (len - m + m - 1) / m + 1) by (nonlinear_arith)
            requires
                m > 0,
                len > m,
        ;
    }
}

/// Splits `items` into consecutive batches of `chunk_size` items, the last
/// one holding what remains. A `chunk_size` of zero gives no batches.
pub fn chunk_vec<T: Clone>(items: Vec<T>, chunk_size: usize) -> (out: Vec<Vec<T>>)
    ensures
        batch_views(out@) == chunks_of(items@, chunk_size as nat),
{
    split_batches(items, chunk_size)
}

/// Splits `items` into consecutive batches of `chunk_size` items, the last
/// one holding what remains. A `chunk_size` of zero gives no batches.
pub fn split_batches<T>(items: Vec<T>, chunk_size: usize) -> (out: Vec<Vec<T>>)
    ensures
        batch_views(out@) == chunks_of(items@, chunk_size as nat),
{
    let mut out: Vec<Vec<T>> = Vec::new();
    if chunk_size == 0 {
        assert(batch_views(out@) =~= chunks_of(items@, chunk_size as nat));
        return out;
    }
    let mut rest: Vec<T> = items;
    while rest.len() > chunk_size
        invariant
            chunk_size > 0,
            batch_views(out@) + chunks_of(rest@, chunk_size as nat) == chunks_of(
                items@,
                chunk_size as nat,
            ),
        decreases rest.len(),
    {
        let ghost before = rest@;
        let ghost done = batch_views(out@);
        let tail = rest.split_off(chunk_size);
        out.push(rest);
        rest = tail;
        proof {
            assert(batch_views(out@) =~= done + seq![before.take(chunk_size as int)]);
            assert(rest@ =~= before.skip(chunk_size as int));
            assert(batch_views(out@) + chunks_of(rest@, chunk_size as nat) =~= done + chunks_of(
                before,
                chunk_size as nat,
            ));
        }
    }
    if rest.len() > 0 {
        let ghost done = batch_views(out@);
        let ghost last = rest@;
        out.push(rest);
        assert(batch_views(out@) =~= done + seq![last]);
    } else {
        assert(batch_views(out@) + chunks_of(rest@, chunk_size as nat) =~= batch_views(out@));
    }
    out
}

} // verus!
