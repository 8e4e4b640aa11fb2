//! Laws that relate split, check and merge.
use vstd::prelude::*;

use crate::check::{reports, missing_of, size_of, verdict, CheckResult, CheckResultErrorType};
use crate::merge::{is_merge_order, ordinal_at};
use crate::ordinal::{decimal, lemma_chunk_name_round_trip};
use crate::split::chunks_of;

verus! {

/// What a check finds of the chunk files that a split wrote: each of them,
/// with its size.
pub open spec fn found_sizes(chunks: Seq<Seq<u8>>) -> Seq<Option<usize>> {
    chunks.map_values(|c: Seq<u8>| Some(c.len() as usize))
}

proof fn lemma_chunks_of_flatten(data: Seq<u8>, size: nat)
    requires
        size > 0,
    ensures
        chunks_of(data, size).flatten() == data,
        forall|i: int| 0 <= i < chunks_of(data, size).len() ==> (#[trigger] chunks_of(data, size)[i]).len() <= data.len(),
    decreases data.len(),
{
    let chunks = chunks_of(data, size);
    if data.len() == 0 {
        assert(chunks.flatten() =~= data);
    } else if data.len() <= size {
        chunks.lemma_flatten_one_element();
    } else {
        let head = data.subrange(0, size as int);
        let tail = data.subrange(size as int, data.len() as int);
        lemma_chunks_of_flatten(tail, size);
        assert(chunks.first() == head);
        assert(chunks.drop_first() =~= chunks_of(tail, size));
        assert(chunks.flatten() == head + chunks_of(tail, size).flatten());
        assert(head + tail =~= data);
        assert forall|i: int| 0 <= i < chunks.len() implies (#[trigger] chunks[i]).len() <= data.len() by {
            if i > 0 {
                assert(chunks[i] == chunks_of(tail, size)[i - 1]);
            }
        }
    }
}

proof fn lemma_found_sizes(chunks: Seq<Seq<u8>>)
    requires
        forall|i: int| 0 <= i < chunks.len() ==> (#[trigger] chunks[i]).len() <= usize::MAX,
    ensures
        missing_of(found_sizes(chunks)) == Seq::<usize>::empty(),
        size_of(found_sizes(chunks)) == chunks.flatten().len(),
    decreases chunks.len(),
{
    if chunks.len() > 0 {
        let rest = chunks.drop_last();
        assert(found_sizes(chunks).drop_last() =~= found_sizes(rest));
        lemma_found_sizes(rest);
        rest.lemma_flatten_push(chunks.last());
        assert(rest.push(chunks.last()) =~= chunks);
    }
}

/// Checking the chunks that a split of `data` writes, against the size and
/// the count that the split reports, succeeds.
pub proof fn lemma_split_then_check(data: Seq<u8>, chunk_size: nat, r: CheckResult)
    requires
        chunk_size > 0,
        data.len() <= usize::MAX,
        reports(r, found_sizes(chunks_of(data, chunk_size)), data.len()),
    ensures
        r.success,
        r.error is None,
{
    lemma_chunks_of_flatten(data, chunk_size);
    lemma_found_sizes(chunks_of(data, chunk_size));
}

proof fn lemma_increasing_at_least(g: Seq<usize>, k: int)
    requires
        0 <= k < g.len(),
        forall|a: int, b: int| 0 <= a < b < g.len() ==> #[trigger] g[a] < #[trigger] g[b],
    ensures
        g[k] >= k,
    decreases k,
{
    if k > 0 {
        lemma_increasing_at_least(g, k - 1);
        assert(g[k - 1] < g[k]);
    }
}

proof fn lemma_increasing_at_most(g: Seq<usize>, k: int)
    requires
        0 <= k < g.len(),
        forall|a: int, b: int| 0 <= a < b < g.len() ==> #[trigger] g[a] < #[trigger] g[b],
        forall|a: int| 0 <= a < g.len() ==> #[trigger] g[a] < g.len(),
    ensures
        g[k] <= k,
    decreases g.len() - k,
{
    if k < g.len() - 1 {
        lemma_increasing_at_most(g, k + 1);
        assert(g[k] < g[k + 1]);
    }
}

/// Chunk files that a split of `data` wrote, listed in any order and
/// concatenated in merge order, give back `data`.
///
/// Position `j` of the listing holds the file named by ordinal `listing[j]`,
/// whose content is chunk `listing[j]`.
pub proof fn lemma_split_then_merge(data: Seq<u8>, chunk_size: nat, listing: Seq<usize>, order: Seq<usize>)
    requires
        chunk_size > 0,
        listing.len() == chunks_of(data, chunk_size).len(),
        listing.no_duplicates(),
        forall|j: int| 0 <= j < listing.len() ==> #[trigger] listing[j] < listing.len(),
        is_merge_order(listing.map_values(|o: usize| decimal(o as nat)), order),
    ensures
        order.map_values(|j: usize| chunks_of(data, chunk_size)[listing[j as int] as int]).flatten() == data,
{
    let chunks = chunks_of(data, chunk_size);
    let names = listing.map_values(|o: usize| decimal(o as nat));
    let n = listing.len();
    assert forall|j: int| 0 <= j < n implies #[trigger] ordinal_at(names, j) == listing[j] by {
        lemma_chunk_name_round_trip(listing[j]);
    }
    let g = order.map_values(|j: usize| listing[j as int]);
    assert forall|a: int, b: int| 0 <= a < b < g.len() implies #[trigger] g[a] < #[trigger] g[b] by {
        assert(ordinal_at(names, order[a] as int) == listing[order[a] as int]);
        assert(ordinal_at(names, order[b] as int) == listing[order[b] as int]);
        if g[a] == g[b] {
            assert(order[a] < order[b]);
            assert(listing[order[a] as int] == listing[order[b] as int]);
        }
    }
    assert forall|a: int| 0 <= a < g.len() implies #[trigger] g[a] < g.len() by {
        assert(order[a] < n);
    }
    let merged = order.map_values(|j: usize| chunks[listing[j as int] as int]);
    assert forall|k: int| 0 <= k < merged.len() implies #[trigger] merged[k] == chunks[k] by {
        lemma_increasing_at_least(g, k);
        lemma_increasing_at_most(g, k);
    }
    assert(merged =~= chunks);
    lemma_chunks_of_flatten(data, chunk_size);
}

proof fn lemma_none_missing(probes: Seq<Option<usize>>)
    requires
        forall|i: int| 0 <= i < probes.len() ==> (#[trigger] probes[i]) is Some,
    ensures
        missing_of(probes) == Seq::<usize>::empty(),
    decreases probes.len(),
{
    if probes.len() > 0 {
        lemma_none_missing(probes.drop_last());
    }
}

proof fn lemma_one_missing(probes: Seq<Option<usize>>, j: int)
    requires
        0 <= j < probes.len() <= usize::MAX,
        probes[j] is None,
        forall|i: int| 0 <= i < probes.len() && i != j ==> (#[trigger] probes[i]) is Some,
    ensures
        missing_of(probes) == seq![j as usize],
    decreases probes.len(),
{
    if j == probes.len() - 1 {
        lemma_none_missing(probes.drop_last());
        assert(Seq::<usize>::empty().push(j as usize) =~= seq![j as usize]);
    } else {
        lemma_one_missing(probes.drop_last(), j);
    }
}

/// When exactly one chunk is absent, the check fails with a missing-chunk
/// error that lists that chunk's ordinal, and no other.
pub proof fn lemma_single_missing_chunk(probes: Seq<Option<usize>>, j: int, file_size: nat, r: CheckResult)
    requires
        0 <= j < probes.len() <= usize::MAX,
        probes[j] is None,
        forall|i: int| 0 <= i < probes.len() && i != j ==> (#[trigger] probes[i]) is Some,
        reports(r, probes, file_size),
    ensures
        !r.success,
        r.error matches Some(e) && e.error_type == CheckResultErrorType::Missing && (e.missing matches Some(
            m,
        ) && m@ == seq![j as usize]),
{
    lemma_one_missing(probes, j);
}

proof fn lemma_missing_tail(probes: Seq<Option<usize>>, k: int)
    requires
        0 <= k <= probes.len() <= usize::MAX,
        forall|i: int| 0 <= i < probes.len() - k ==> (#[trigger] probes[i]) is Some,
        forall|i: int| probes.len() - k <= i < probes.len() ==> (#[trigger] probes[i]) is None,
    ensures
        missing_of(probes) == Seq::new(k as nat, |t: int| (probes.len() - k + t) as usize),
    decreases k,
{
    if k == 0 {
        lemma_none_missing(probes);
        assert(Seq::new(k as nat, |t: int| (probes.len() - k + t) as usize) =~= Seq::<usize>::empty());
    } else {
        let rest = probes.drop_last();
        lemma_missing_tail(rest, k - 1);
        assert(Seq::new((k - 1) as nat, |t: int| (rest.len() - (k - 1) + t) as usize).push(
            (probes.len() - 1) as usize,
        ) =~= Seq::new(k as nat, |t: int| (probes.len() - k + t) as usize));
    }
}

/// When the expected chunk count exceeds the chunks present by `k`, so that
/// the last `k` ordinals are absent, the check lists exactly those `k`
/// ordinals as missing, in ascending order.
pub proof fn lemma_missing_highest(probes: Seq<Option<usize>>, k: int, file_size: nat, r: CheckResult)
    requires
        0 < k <= probes.len() <= usize::MAX,
        forall|i: int| 0 <= i < probes.len() - k ==> (#[trigger] probes[i]) is Some,
        forall|i: int| probes.len() - k <= i < probes.len() ==> (#[trigger] probes[i]) is None,
        reports(r, probes, file_size),
    ensures
        !r.success,
        r.error matches Some(e) && e.error_type == CheckResultErrorType::Missing && (e.missing matches Some(
            m,
        ) && m@.len() == k && forall|t: int| 0 <= t < k ==> #[trigger] m@[t] == probes.len() - k + t),
{
    lemma_missing_tail(probes, k);
}

/// When every chunk is present and their sizes do not add up to the
/// expected file size, the check fails with a size error.
pub proof fn lemma_size_mismatch(probes: Seq<Option<usize>>, file_size: nat, r: CheckResult)
    requires
        forall|i: int| 0 <= i < probes.len() ==> (#[trigger] probes[i]) is Some,
        size_of(probes) != file_size,
        reports(r, probes, file_size),
    ensures
        !r.success,
        r.error matches Some(e) && e.error_type == CheckResultErrorType::Size && e.missing is None,
{
    lemma_none_missing(probes);
}

} // verus!
