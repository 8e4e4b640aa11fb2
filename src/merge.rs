//! Ordering a directory of chunk files for merging them back into one file.
use vstd::prelude::*;
use vstd::std_specs::convert::IntoSpec;
use std::path::PathBuf;

use crate::config::{buffer_capacity, BUFFER_CAPACITY_MAX_DEFAULT};
use crate::error::{ProcessError, ProcessErrorKind};
use crate::ordinal::{ordinal_of, parse_ordinal};

verus! {

/// The text of each file name.
pub open spec fn names_view(names: Seq<String>) -> Seq<Seq<char>> {
    names.map_values(|s: String| s@)
}

/// Every name is a chunk ordinal.
pub open spec fn all_ordinals(names: Seq<Seq<char>>) -> bool {
    forall|i: int| 0 <= i < names.len() ==> (#[trigger] ordinal_of(names[i])) is Some
}

/// The ordinal of the file at position `j` of the listing.
pub open spec fn ordinal_at(names: Seq<Seq<char>>, j: int) -> usize {
    ordinal_of(names[j])->0
}

/// `order` lists every position of `names` once, by ascending ordinal, and
/// positions whose names denote the same ordinal in their listed order.
pub open spec fn is_merge_order(names: Seq<Seq<char>>, order: Seq<usize>) -> bool {
    &&& order.len() == names.len()
    &&& forall|k: int| 0 <= k < order.len() ==> (#[trigger] order[k]) < names.len()
    &&& forall|j: int| 0 <= j < names.len() ==> #[trigger] order.contains(j as usize)
    &&& forall|k: int, l: int|
        0 <= k < l < order.len() ==> (ordinal_at(names, #[trigger] order[k] as int) < ordinal_at(
            names,
            #[trigger] order[l] as int,
        ) || (ordinal_at(names, order[k] as int) == ordinal_at(names, order[l] as int) && order[k]
            < order[l]))
}

/// Pairs in lexicographic order, the first element deciding.
pub open spec fn pair_le(a: (usize, usize), b: (usize, usize)) -> bool {
    a.0 < b.0 || (a.0 == b.0 && a.1 <= b.1)
}

/// Relies on `slice::sort_unstable`: the same pairs, in ascending order, where
/// tuples compare lexicographically.
#[verifier::external_body]
fn sort_pairs(v: &mut Vec<(usize, usize)>)
    ensures
        final(v)@.to_multiset() == old(v)@.to_multiset(),
        forall|i: int, j: int| 0 <= i < j < final(v)@.len() ==> pair_le(#[trigger] final(v)@[i], #[trigger] final(v)@[j]),
{
    v.sort_unstable()
}

/// The order in which to concatenate the chunk files whose names are listed:
/// positions of `names`, by ascending ordinal.
///
/// Fails with `NotFound` when the listing is empty, and with
/// `CorruptDirectory` when a name is not a chunk ordinal.
pub fn merge_order(names: &Vec<String>) -> (r: Result<Vec<usize>, ProcessError>)
    ensures
        r is Ok <==> (names@.len() > 0 && all_ordinals(names_view(names@))),
        r matches Ok(order) ==> is_merge_order(names_view(names@), order@),
        r matches Err(e) ==> (if names@.len() == 0 {
            e.kind == ProcessErrorKind::NotFound && e.message@ == "No files found in in_dir"@
        } else {
            e.kind == ProcessErrorKind::CorruptDirectory && e.message@ == "a file in in_dir is not named by a chunk ordinal"@
        }),
{
    let n = names.len();
    if n == 0 {
        return Err(ProcessError::new(ProcessErrorKind::NotFound, "No files found in in_dir"));
    }
    let ghost view = names_view(names@);
    let mut keyed: Vec<(usize, usize)> = Vec::new();
    let mut i: usize = 0;
    while i < n
        invariant
            i <= n,
            n == names@.len(),
            view == names_view(names@),
            keyed@.len() == i,
            forall|j: int| 0 <= j < i ==> (#[trigger] ordinal_of(view[j])) is Some,
            forall|j: int| 0 <= j < i ==> #[trigger] keyed@[j] == (ordinal_at(view, j), j as usize),
        decreases n - i,
    {
        match parse_ordinal(names[i].as_str()) {
            Some(o) => {
                keyed.push((o, i));
            },
            None => {
                assert(ordinal_of(view[i as int]) is None);
                return Err(
                    ProcessError::new(
                        ProcessErrorKind::CorruptDirectory,
                        "a file in in_dir is not named by a chunk ordinal",
                    ),
                );
            },
        }
        i = i + 1;
    }
    let ghost before = keyed@;
    proof {
        assert(before.no_duplicates()) by {
            assert forall|a: int, b: int| 0 <= a < before.len() && 0 <= b < before.len() && a != b implies before[a] != before[b] by {
                assert(before[a].1 == a);
                assert(before[b].1 == b);
            }
        }
        before.lemma_multiset_has_no_duplicates();
    }
    sort_pairs(&mut keyed);
    let ghost sorted = keyed@;
    proof {
        broadcast use vstd::seq_lib::group_to_multiset_ensures;
        assert forall|x: (usize, usize)| sorted.to_multiset().contains(x) implies sorted.to_multiset().count(x) == 1 by {
            assert(before.to_multiset().contains(x));
        }
        sorted.lemma_multiset_has_no_duplicates_conv();
        assert(sorted.len() == sorted.to_multiset().len());
        assert(before.len() == before.to_multiset().len());
        assert forall|k: int| 0 <= k < sorted.len() implies (#[trigger] sorted[k]).1 < n && sorted[k] == (
            ordinal_at(view, sorted[k].1 as int),
            sorted[k].1,
        ) by {
            assert(sorted.to_multiset().count(sorted[k]) > 0);
            assert(before.contains(sorted[k]));
            let j = choose|j: int| 0 <= j < before.len() && before[j] == sorted[k];
            assert(before[j] == (ordinal_at(view, j), j as usize));
        }
    }
    let mut order: Vec<usize> = Vec::new();
    let mut k: usize = 0;
    while k < n
        invariant
            k <= n,
            n == sorted.len(),
            keyed@ == sorted,
            order@.len() == k,
            forall|m: int| 0 <= m < k ==> #[trigger] order@[m] == sorted[m].1,
        decreases n - k,
    {
        order.push(keyed[k].1);
        k = k + 1;
    }
    proof {
        broadcast use vstd::seq_lib::group_to_multiset_ensures;
        assert forall|j: int| 0 <= j < view.len() implies #[trigger] order@.contains(j as usize) by {
            let x = before[j];
            assert(before.contains(x));
            assert(sorted.to_multiset().count(x) > 0);
            assert(sorted.contains(x));
            let m = choose|m: int| 0 <= m < sorted.len() && sorted[m] == x;
            assert(order@[m] == j);
        }
        assert forall|a: int, b: int| 0 <= a < b < order@.len() implies (ordinal_at(view, #[trigger] order@[a] as int) < ordinal_at(
            view,
            #[trigger] order@[b] as int,
        ) || (ordinal_at(view, order@[a] as int) == ordinal_at(view, order@[b] as int) && order@[a]
            < order@[b])) by {
            assert(pair_le(sorted[a], sorted[b]));
            assert(sorted[a] != sorted[b]);
        }
    }
    Ok(order)
}

/// Settings of one merge, each of them set.
#[derive(Debug, Clone)]
pub struct MergeOptions {
    /// The chunk directory to merge.
    pub in_dir: PathBuf,
    /// The file that receives the merged bytes.
    pub out_file: PathBuf,
    /// The upper bound of the copy buffer's capacity.
    pub max_buffer_capacity: usize,
}

impl MergeOptions {
    /// The capacity of the copy buffer: the size of a representative chunk,
    /// bounded by the maximum.
    pub fn buffer_capacity(&self, sample_size: usize) -> (r: usize)
        ensures
            r == if sample_size <= self.max_buffer_capacity {
                sample_size
            } else {
                self.max_buffer_capacity
            },
    {
        buffer_capacity(sample_size, self.max_buffer_capacity)
    }
}

/// Process to merge chunks from a directory into one file.
#[derive(Debug, Clone)]
pub struct Merge {
    pub in_dir: Option<PathBuf>,
    pub out_file: Option<PathBuf>,
    pub cap_max: usize,
}

impl Merge {
    /// Create a new merge process.
    pub fn new() -> (r: Self)
        ensures
            r.in_dir is None,
            r.out_file is None,
            r.cap_max == BUFFER_CAPACITY_MAX_DEFAULT,
    {
        Merge { in_dir: None, out_file: None, cap_max: BUFFER_CAPACITY_MAX_DEFAULT }
    }

    /// Create a new merge process from an existing one.
    pub fn from<P: Into<Merge>>(process: P) -> (r: Self)
        ensures
            P::obeys_into_spec() ==> r == process.into_spec(),
    {
        process.into()
    }

    /// Set the input directory.
    pub fn in_dir(self, path: PathBuf) -> (r: Self)
        ensures
            r.in_dir == Some(path),
            r.out_file == self.out_file,
            r.cap_max == self.cap_max,
    {
        Merge { in_dir: Some(path), ..self }
    }

    /// Set the output file.
    pub fn out_file(self, path: PathBuf) -> (r: Self)
        ensures
            r.in_dir == self.in_dir,
            r.out_file == Some(path),
            r.cap_max == self.cap_max,
    {
        Merge { out_file: Some(path), ..self }
    }

    /// Set the maximum size of the buffer capacity.
    pub fn max_buffer_capacity(self, capacity: usize) -> (r: Self)
        ensures
            r.in_dir == self.in_dir,
            r.out_file == self.out_file,
            r.cap_max == capacity,
    {
        Merge { cap_max: capacity, ..self }
    }

    /// The settings of this merge, or the first of them that is not set.
    pub fn options(self) -> (r: Result<MergeOptions, ProcessError>)
        ensures
            r is Ok <==> (self.in_dir is Some && self.out_file is Some),
            r matches Ok(o) ==> (Some(o.in_dir) == self.in_dir && Some(o.out_file) == self.out_file
                && o.max_buffer_capacity == self.cap_max),
            r matches Err(e) ==> (e.kind == ProcessErrorKind::InvalidInput && e.message@ == if self.in_dir is None {
                "in_dir is not set"@
            } else {
                "out_file is not set"@
            }),
    {
        let in_dir = match self.in_dir {
            Some(p) => p,
            None => {
                return Err(ProcessError::new(ProcessErrorKind::InvalidInput, "in_dir is not set"));
            },
        };
        let out_file = match self.out_file {
            Some(p) => p,
            None => {
                return Err(ProcessError::new(ProcessErrorKind::InvalidInput, "out_file is not set"));
            },
        };
        Ok(MergeOptions { in_dir, out_file, max_buffer_capacity: self.cap_max })
    }
}

impl Default for Merge {
    fn default() -> (r: Self)
        ensures
            r.in_dir is None,
            r.out_file is None,
            r.cap_max == BUFFER_CAPACITY_MAX_DEFAULT,
    {
        Self::new()
    }
}

} // verus!
