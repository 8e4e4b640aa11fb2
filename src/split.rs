//! Splitting a byte stream into numbered chunks of a fixed size.
use vstd::prelude::*;
use std::path::PathBuf;

use crate::config::{buffer_capacity, BUFFER_CAPACITY_MAX_DEFAULT, CHUNK_SIZE_DEFAULT};
use crate::error::{ProcessError, ProcessErrorKind};

verus! {

/// The chunks that `data` is split into: pieces of exactly `size` bytes in
/// order, then one shorter, non-empty piece for what is left, if anything is.
pub open spec fn chunks_of(data: Seq<u8>, size: nat) -> Seq<Seq<u8>>
    decreases data.len(),
{
    if size == 0 || data.len() == 0 {
        seq![]
    } else if data.len() <= size {
        seq![data]
    } else {
        seq![data.subrange(0, size as int)] + chunks_of(data.subrange(size as int, data.len() as int), size)
    }
}

/// The final chunk that is still held back: none when nothing is pending.
pub open spec fn pending_chunks(pending: Seq<u8>) -> Seq<Seq<u8>> {
    if pending.len() == 0 {
        seq![]
    } else {
        seq![pending]
    }
}

/// Each chunk of `chunks` holds exactly `size` bytes.
pub open spec fn all_full(chunks: Seq<Seq<u8>>, size: nat) -> bool {
    forall|i: int| 0 <= i < chunks.len() ==> (#[trigger] chunks[i]).len() == size
}

/// Full chunks followed by a shorter remainder are exactly the chunks of
/// their concatenation.
pub proof fn lemma_chunks_of_full_prefix(full: Seq<Seq<u8>>, pending: Seq<u8>, size: nat)
    requires
        size > 0,
        all_full(full, size),
        pending.len() < size,
    ensures
        chunks_of(full.flatten() + pending, size) == full + pending_chunks(pending),
    decreases full.len(),
{
    if full.len() == 0 {
        assert(full.flatten() + pending =~= pending);
        assert(full + pending_chunks(pending) =~= pending_chunks(pending));
        if pending.len() > 0 {
            assert(chunks_of(pending, size) == seq![pending]);
        }
    } else {
        let first = full[0];
        let rest = full.drop_first();
        assert(all_full(rest, size)) by {
            assert forall|i: int| 0 <= i < rest.len() implies (#[trigger] rest[i]).len() == size by {
                assert(rest[i] == full[i + 1]);
            }
        }
        lemma_chunks_of_full_prefix(rest, pending, size);
        let tail = rest.flatten() + pending;
        let data = full.flatten() + pending;
        assert(full.flatten() == first + rest.flatten());
        assert(data =~= first + tail);
        assert(first.len() == size);
        assert(data.subrange(0, size as int) =~= first);
        assert(data.subrange(size as int, data.len() as int) =~= tail);
        if tail.len() == 0 {
            assert(rest.len() == 0) by {
                if rest.len() > 0 {
                    assert(rest[0].len() == size);
                    lemma_flatten_first_len(rest);
                }
            }
            assert(data =~= first);
            assert(pending_chunks(pending) =~= seq![]);
            assert(full =~= seq![first]);
            assert(full + pending_chunks(pending) =~= seq![first]);
        } else {
            assert(full + pending_chunks(pending) =~= seq![first] + (rest + pending_chunks(pending)));
        }
    }
}

proof fn lemma_full_chunks_len(chunks: Seq<Seq<u8>>, size: nat)
    requires
        all_full(chunks, size),
    ensures
        chunks.flatten().len() == chunks.len() * size,
    decreases chunks.len(),
{
    if chunks.len() > 0 {
        let rest = chunks.drop_first();
        assert(all_full(rest, size)) by {
            assert forall|i: int| 0 <= i < rest.len() implies (#[trigger] rest[i]).len() == size by {
                assert(rest[i] == chunks[i + 1]);
            }
        }
        lemma_full_chunks_len(rest, size);
        assert(chunks.flatten() == chunks[0] + rest.flatten());
        assert(chunks.len() * size == size + rest.len() * size) by (nonlinear_arith)
            requires chunks.len() == rest.len() + 1;
    }
}

proof fn lemma_flatten_first_len(s: Seq<Seq<u8>>)
    requires
        s.len() > 0,
    ensures
        s.flatten().len() >= s[0].len(),
{
    assert(s.flatten() == s[0] + s.drop_first().flatten());
}

/// One chunk: its zero-based ordinal and its bytes.
pub struct Chunk {
    pub ordinal: usize,
    pub data: Vec<u8>,
}

/// The bytes of each chunk, in order.
pub open spec fn chunk_data(chunks: Seq<Chunk>) -> Seq<Seq<u8>> {
    chunks.map_values(|c: Chunk| c.data@)
}

/// The chunk that `finish` hands back, as a sequence of zero or one chunk.
pub open spec fn final_chunk(last: Option<Chunk>) -> Seq<Seq<u8>> {
    match last {
        Some(c) => seq![c.data@],
        None => seq![],
    }
}

/// Cuts a stream of bytes into chunks of a fixed size, in order.
///
/// Bytes are fed in pieces of any length; each chunk that fills up is handed
/// back at once, and the remainder is handed back by `finish`.
pub struct Chunker {
    chunk_size: usize,
    pending: Vec<u8>,
    total_chunks: usize,
    consumed_len: usize,
    consumed: Ghost<Seq<u8>>,
    emitted: Ghost<Seq<Seq<u8>>>,
}

impl Chunker {
    /// The size of each full chunk.
    pub closed spec fn size(&self) -> nat {
        self.chunk_size as nat
    }

    /// Every byte fed so far.
    pub closed spec fn consumed(&self) -> Seq<u8> {
        self.consumed@
    }

    /// Every chunk handed back so far.
    pub closed spec fn emitted(&self) -> Seq<Seq<u8>> {
        self.emitted@
    }

    /// The bytes fed and not yet handed back.
    pub closed spec fn pending(&self) -> Seq<u8> {
        self.pending@
    }

    /// The invariant: full chunks handed back, fewer than a chunk pending,
    /// and together they are every byte fed.
    pub closed spec fn wf(&self) -> bool {
        &&& self.chunk_size > 0
        &&& self.pending@.len() < self.chunk_size
        &&& self.total_chunks == self.emitted@.len()
        &&& self.consumed_len == self.consumed@.len()
        &&& all_full(self.emitted@, self.chunk_size as nat)
        &&& self.emitted@.flatten() + self.pending@ == self.consumed@
    }

    /// What the chunker holds, stated over its views: the chunks handed back
    /// are full, and with what is pending they are the chunks of all bytes fed.
    pub proof fn lemma_state(&self)
        requires
            self.wf(),
        ensures
            self.size() > 0,
            self.pending().len() < self.size(),
            all_full(self.emitted(), self.size()),
            self.emitted().flatten() + self.pending() == self.consumed(),
            chunks_of(self.consumed(), self.size()) == self.emitted() + pending_chunks(
                self.pending(),
            ),
    {
        lemma_chunks_of_full_prefix(self.emitted@, self.pending@, self.chunk_size as nat);
    }

    /// A chunker that has been fed nothing.
    pub fn new(chunk_size: usize) -> (r: Self)
        requires
            chunk_size > 0,
        ensures
            r.wf(),
            r.size() == chunk_size,
            r.consumed() == Seq::<u8>::empty(),
            r.emitted() == Seq::<Seq<u8>>::empty(),
    {
        let r = Chunker {
            chunk_size,
            pending: Vec::new(),
            total_chunks: 0,
            consumed_len: 0,
            consumed: Ghost(Seq::empty()),
            emitted: Ghost(Seq::empty()),
        };
        assert(r.emitted@.flatten() + r.pending@ =~= r.consumed@);
        r
    }

    /// The number of chunks handed back so far.
    pub fn total_chunks(&self) -> (r: usize)
        requires
            self.wf(),
        ensures
            r == self.emitted().len(),
    {
        self.total_chunks
    }

    /// The number of chunks of the whole split if the stream ends now: those
    /// handed back, and one more for pending bytes.
    pub fn chunk_count(&self) -> (r: usize)
        requires
            self.wf(),
        ensures
            r == (self.emitted() + pending_chunks(self.pending())).len(),
            r == chunks_of(self.consumed(), self.size()).len(),
    {
        proof {
            self.lemma_state();
            lemma_full_chunks_len(self.emitted@, self.chunk_size as nat);
            assert(self.emitted@.len() <= self.emitted@.len() * self.chunk_size) by (nonlinear_arith)
                requires self.chunk_size >= 1;
        }
        if self.pending.len() == 0 {
            self.total_chunks
        } else {
            self.total_chunks + 1
        }
    }

    /// The number of bytes fed so far.
    pub fn consumed_len(&self) -> (r: usize)
        requires
            self.wf(),
        ensures
            r == self.consumed().len(),
    {
        self.consumed_len
    }

    /// Takes the next bytes of the stream and hands back, in order, each chunk
    /// that they complete.
    pub fn feed(&mut self, data: &[u8]) -> (chunks: Vec<Chunk>)
        requires
            old(self).wf(),
            old(self).consumed().len() + data@.len() <= usize::MAX,
        ensures
            final(self).wf(),
            final(self).size() == old(self).size(),
            final(self).consumed() == old(self).consumed() + data@,
            final(self).emitted() == old(self).emitted() + chunk_data(chunks@),
            forall|k: int|
                0 <= k < chunks@.len() ==> (#[trigger] chunks@[k]).ordinal == old(self).emitted().len() + k,
    {
        let mut chunks: Vec<Chunk> = Vec::new();
        let mut i: usize = 0;
        while i < data.len()
            invariant
                i <= data@.len(),
                self.wf(),
                self.chunk_size == old(self).chunk_size,
                old(self).consumed().len() + data@.len() <= usize::MAX,
                self.consumed@ == old(self).consumed() + data@.subrange(0, i as int),
                self.emitted@ == old(self).emitted() + chunk_data(chunks@),
                forall|k: int|
                    0 <= k < chunks@.len() ==> (#[trigger] chunks@[k]).ordinal == old(self).emitted().len() + k,
            decreases data@.len() - i,
        {
            let byte = data[i];
            let ghost before = self.consumed@;
            self.pending.push(byte);
            self.consumed_len = self.consumed_len + 1;
            proof {
                self.consumed@ = self.consumed@.push(byte);
                assert(data@.subrange(0, i + 1) =~= data@.subrange(0, i as int).push(byte));
                assert(self.emitted@.flatten() + self.pending@ =~= self.consumed@);
            }
            i = i + 1;
            if self.pending.len() == self.chunk_size {
                let mut full: Vec<u8> = Vec::new();
                std::mem::swap(&mut full, &mut self.pending);
                let ghost chunks_before = chunks@;
                proof {
                    self.emitted@.lemma_flatten_push(full@);
                    self.emitted@ = self.emitted@.push(full@);
                    assert(self.emitted@.flatten() + self.pending@ =~= self.consumed@);
                    lemma_full_chunks_len(self.emitted@, self.chunk_size as nat);
                    assert(self.emitted@.len() <= self.emitted@.len() * self.chunk_size) by (nonlinear_arith)
                        requires self.chunk_size >= 1;
                }
                let ordinal = self.total_chunks;
                self.total_chunks = self.total_chunks + 1;
                chunks.push(Chunk { ordinal, data: full });
                proof {
                    assert(chunk_data(chunks@) =~= chunk_data(chunks_before).push(full@));
                    assert(self.emitted@ =~= old(self).emitted() + chunk_data(chunks@));
                }
            }
        }
        assert(data@.subrange(0, data@.len() as int) =~= data@);
        chunks
    }

    /// Ends the stream: hands back the remaining bytes as one last, shorter
    /// chunk, or nothing when the bytes fed divide into full chunks.
    pub fn finish(self) -> (last: Option<Chunk>)
        requires
            self.wf(),
        ensures
            self.emitted() + final_chunk(last) == chunks_of(self.consumed(), self.size()),
            match last {
                Some(c) => c.ordinal == self.emitted().len() && 0 < c.data@.len() < self.size(),
                None => self.pending().len() == 0,
            },
    {
        proof {
            self.lemma_state();
        }
        if self.pending.len() == 0 {
            assert(final_chunk(None) =~= pending_chunks(self.pending@));
            None
        } else {
            let last = Chunk { ordinal: self.total_chunks, data: self.pending };
            assert(final_chunk(Some(last)) =~= pending_chunks(self.pending@));
            Some(last)
        }
    }
}

/// Result of the split process.
#[derive(Debug, Clone, Copy, PartialEq, Eq, Structural)]
pub struct SplitResult {
    /// Size of the file that was split.
    pub file_size: usize,
    /// The total number of chunks the file was split into.
    pub total_chunks: usize,
}

/// Settings of one split, each of them set.
#[derive(Debug, Clone)]
pub struct SplitOptions {
    /// The file to split.
    pub in_file: PathBuf,
    /// The directory that receives the chunk files.
    pub out_dir: PathBuf,
    /// The size of each chunk in bytes; never 0.
    pub chunk_size: usize,
    /// The upper bound of the read buffer's capacity.
    pub max_buffer_capacity: usize,
}

impl SplitOptions {
    /// The capacity of the read buffer: the chunk size, bounded by the maximum.
    pub fn buffer_capacity(&self) -> (r: usize)
        ensures
            r == if self.chunk_size <= self.max_buffer_capacity {
                self.chunk_size
            } else {
                self.max_buffer_capacity
            },
    {
        buffer_capacity(self.chunk_size, self.max_buffer_capacity)
    }
}

/// Process to split a file from a path into a directory of chunks.
#[derive(Debug, Clone)]
pub struct Split {
    pub in_file: Option<PathBuf>,
    pub out_dir: Option<PathBuf>,
    pub chunk_size: usize,
    pub cap_max: usize,
}

impl Split {
    /// Create a new split process.
    pub fn new() -> (r: Self)
        ensures
            r.in_file is None,
            r.out_dir is None,
            r.chunk_size == CHUNK_SIZE_DEFAULT,
            r.cap_max == BUFFER_CAPACITY_MAX_DEFAULT,
    {
        Split {
            in_file: None,
            out_dir: None,
            chunk_size: CHUNK_SIZE_DEFAULT,
            cap_max: BUFFER_CAPACITY_MAX_DEFAULT,
        }
    }

    /// Set the input file.
    pub fn in_file(self, path: PathBuf) -> (r: Self)
        ensures
            r.in_file == Some(path),
            r.out_dir == self.out_dir,
            r.chunk_size == self.chunk_size,
            r.cap_max == self.cap_max,
    {
        Split { in_file: Some(path), ..self }
    }

    /// Set the output directory.
    pub fn out_dir(self, path: PathBuf) -> (r: Self)
        ensures
            r.in_file == self.in_file,
            r.out_dir == Some(path),
            r.chunk_size == self.chunk_size,
            r.cap_max == self.cap_max,
    {
        Split { out_dir: Some(path), ..self }
    }

    /// Set the size of each chunk.
    pub fn chunk_size(self, size: usize) -> (r: Self)
        ensures
            r.in_file == self.in_file,
            r.out_dir == self.out_dir,
            r.chunk_size == size,
            r.cap_max == self.cap_max,
    {
        Split { chunk_size: size, ..self }
    }

    /// Set the maximum size of the buffer capacity.
    pub fn max_buffer_capacity(self, capacity: usize) -> (r: Self)
        ensures
            r.in_file == self.in_file,
            r.out_dir == self.out_dir,
            r.chunk_size == self.chunk_size,
            r.cap_max == capacity,
    {
        Split { cap_max: capacity, ..self }
    }

    /// The settings of this split, or the first of them that is missing or
    /// invalid: the input file, then the output directory, then a chunk size of 0.
    pub fn options(self) -> (r: Result<SplitOptions, ProcessError>)
        ensures
            r is Ok <==> (self.in_file is Some && self.out_dir is Some && self.chunk_size > 0),
            r matches Ok(o) ==> (Some(o.in_file) == self.in_file && Some(o.out_dir) == self.out_dir
                && o.chunk_size == self.chunk_size && o.max_buffer_capacity == self.cap_max),
            r matches Err(e) ==> (e.kind == ProcessErrorKind::InvalidInput && e.message@ == if self.in_file is None {
                "in_file is not set"@
            } else if self.out_dir is None {
                "out_dir is not set"@
            } else {
                "chunk_size is 0"@
            }),
    {
        let in_file = match self.in_file {
            Some(p) => p,
            None => {
                return Err(ProcessError::new(ProcessErrorKind::InvalidInput, "in_file is not set"));
            },
        };
        let out_dir = match self.out_dir {
            Some(p) => p,
            None => {
                return Err(ProcessError::new(ProcessErrorKind::InvalidInput, "out_dir is not set"));
            },
        };
        if self.chunk_size == 0 {
            return Err(ProcessError::new(ProcessErrorKind::InvalidInput, "chunk_size is 0"));
        }
        Ok(
            SplitOptions {
                in_file,
                out_dir,
                chunk_size: self.chunk_size,
                max_buffer_capacity: self.cap_max,
            },
        )
    }
}

impl Default for Split {
    fn default() -> (r: Self)
        ensures
            r.in_file is None,
            r.out_dir is None,
            r.chunk_size == CHUNK_SIZE_DEFAULT,
            r.cap_max == BUFFER_CAPACITY_MAX_DEFAULT,
    {
        Self::new()
    }
}

} // verus!
