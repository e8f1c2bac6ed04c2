//! Partitioning the segment list across workers.
//!
//! The filtered segment list is cut into contiguous chunks, one per worker,
//! fixed once before any fetch starts. The effective worker count is clamped
//! to the list length, so no chunk is ever empty, and the remainder of the
//! division is spread one segment per chunk from the front, so no segment is
//! dropped: the chunks concatenate back to the original list exactly.

use vstd::prelude::*;
use vstd::arithmetic::div_mod::lemma_fundamental_div_mod;
use vstd::arithmetic::mul::lemma_mul_inequality;
use vstd::seq_lib::lemma_multiset_commutative;
use vstd::seq_lib::group_to_multiset_ensures;
use vstd::multiset::Multiset;

verus! {

/// How many chunks a list of length `len` is cut into for `workers` workers:
/// one per worker, but never more than one per segment.
pub open spec fn spec_chunk_count(len: int, workers: int) -> int {
    if len == 0 {
        0
    } else if workers <= len {
        workers
    } else {
        len
    }
}

/// The length of chunk `k`: the chunks share the list as evenly as they can,
/// the first `len % count` of them holding one extra segment.
pub open spec fn spec_chunk_size(len: int, workers: int, k: int) -> int {
    let m = spec_chunk_count(len, workers);
    if k < len % m {
        len / m + 1
    } else {
        len / m
    }
}

/// Cuts the list into contiguous chunks, one per worker.
///
/// The chunks concatenate back to the original list, their number is the
/// worker count clamped to the list length, and their sizes differ by at
/// most one, the larger ones first.
pub fn partition(names: &Vec<String>, workers: usize) -> (r: Vec<Vec<String>>)
    requires
        workers >= 1,
    ensures
        r.deep_view().flatten() == names.deep_view(),
        r@.len() == spec_chunk_count(names@.len() as int, workers as int),
        forall|k: int|
            0 <= k < r@.len() ==> (#[trigger] r.deep_view()[k]).len() == spec_chunk_size(
                names@.len() as int,
                workers as int,
                k,
            ),
        forall|k: int| 0 <= k < r@.len() ==> (#[trigger] r.deep_view()[k]).len() >= 1,
{
    let ghost all = names.deep_view();
    let len = names.len();
    if len == 0 {
        let r: Vec<Vec<String>> = Vec::new();
        proof {
            assert(r.deep_view() =~= Seq::<Seq<Seq<char>>>::empty());
            assert(r.deep_view().flatten() =~= all);
        }
        return r;
    }
    let m = if workers <= len {
        workers
    } else {
        len
    };
    let base = len / m;
    let rem = len % m;
    proof {
        lemma_fundamental_div_mod(len as int, m as int);
        assert(base >= 1) by {
            if base == 0 {
                assert(m as int * 0 == 0);
            }
        }
    }
    let mut r: Vec<Vec<String>> = Vec::new();
    let mut pos: usize = 0;
    let mut k: usize = 0;
    proof {
        assert(r.deep_view() =~= Seq::<Seq<Seq<char>>>::empty());
        assert(r.deep_view().flatten() =~= all.subrange(0, 0));
    }
    while k < m
        invariant
            1 <= m <= len,
            m == spec_chunk_count(len as int, workers as int),
            base >= 1,
            len == all.len(),
            all == names.deep_view(),
            base == len as int / m as int,
            rem == len as int % m as int,
            len == m * base + rem,
            0 <= rem < m,
            k <= m,
            r@.len() == k,
            pos == k * base + (if k < rem {
                k as int
            } else {
                rem as int
            }),
            pos <= len,
            r.deep_view().flatten() == all.subrange(0, pos as int),
            forall|q: int|
                0 <= q < k ==> (#[trigger] r.deep_view()[q]).len() == spec_chunk_size(
                    len as int,
                    workers as int,
                    q,
                ),
        decreases m - k,
    {
        let ghost prev = r.deep_view();
        proof {
            if k < rem {
                lemma_mul_inequality(1, m as int, base as int);
                assert(base + 1 <= len);
            }
        }
        let size = if k < rem {
            base + 1
        } else {
            base
        };
        proof {
            assert((k + 1) * base == k * base + base) by (nonlinear_arith);
            lemma_mul_inequality(k as int + 1, m as int, base as int);
            assert(pos + size <= len);
        }
        let mut chunk: Vec<String> = Vec::new();
        let mut t: usize = 0;
        while t < size
            invariant
                t <= size,
                pos + size <= len,
                len == all.len(),
                all == names.deep_view(),
                chunk.deep_view() == all.subrange(pos as int, pos as int + t as int),
            decreases size - t,
        {
            let ghost chunk_prev = chunk.deep_view();
            chunk.push(names[pos + t].clone());
            proof {
                assert(chunk.deep_view() =~= chunk_prev.push(all[pos as int + t as int]));
                assert(chunk.deep_view() =~= all.subrange(pos as int, pos as int + t as int + 1));
            }
            t = t + 1;
        }
        r.push(chunk);
        proof {
            assert(r.deep_view() =~= prev.push(all.subrange(pos as int, pos as int + size as int)));
            prev.lemma_flatten_push(all.subrange(pos as int, pos as int + size as int));
            assert(r.deep_view().flatten() =~= all.subrange(0, pos as int + size as int));
            assert(r.deep_view()[k as int].len() == spec_chunk_size(
                len as int,
                workers as int,
                k as int,
            ));
        }
        pos = pos + size;
        k = k + 1;
    }
    proof {
        assert(pos == len);
        assert(r.deep_view().flatten() =~= all);
        assert(forall|q: int|
            0 <= q < r@.len() ==> (#[trigger] r.deep_view()[q]).len() >= 1);
    }
    r
}

/// The contents of a sequence of chunks, taken together as a multiset.
pub open spec fn spec_chunks_multiset(chunks: Seq<Seq<Seq<char>>>) -> Multiset<Seq<char>>
    decreases chunks.len(),
{
    if chunks.len() == 0 {
        Multiset::empty()
    } else {
        chunks.first().to_multiset().add(spec_chunks_multiset(chunks.drop_first()))
    }
}

/// Every segment is assigned to exactly one worker: chunks that concatenate
/// back to the list hold, taken together as a multiset, each element of the
/// list exactly as often as the list does, so none is scheduled to zero
/// workers or to more than one.
pub proof fn lemma_partition_covers_each_once(chunks: Seq<Seq<Seq<char>>>, names: Seq<Seq<char>>)
    requires
        chunks.flatten() == names,
    ensures
        spec_chunks_multiset(chunks) == names.to_multiset(),
    decreases chunks.len(),
{
    broadcast use group_to_multiset_ensures;

    if chunks.len() == 0 {
        assert(names =~= Seq::<Seq<char>>::empty());
        assert(names.to_multiset() =~= Multiset::<Seq<char>>::empty()) by {
            assert(forall|x: Seq<char>| !names.contains(x));
        }
    } else {
        lemma_partition_covers_each_once(chunks.drop_first(), chunks.drop_first().flatten());
        lemma_multiset_commutative(chunks.first(), chunks.drop_first().flatten());
        assert(spec_chunks_multiset(chunks) =~= names.to_multiset());
    }
}

} // verus!
