//! Checking that a chunk set is complete and has the expected total size.
use vstd::prelude::*;
use vstd::std_specs::convert::IntoSpec;
use std::path::PathBuf;

use crate::error::{ProcessError, ProcessErrorKind};

verus! {

/// Error type of the result from the check process.
#[derive(Debug, Clone, Copy, PartialEq, Eq, Structural)]
pub enum CheckResultErrorType {
    /// Some of the chunks are missing to merge the file.
    Missing,
    /// The actual file size is not equal the input file size.
    Size,
}

/// The stable short identifier of an error type.
pub open spec fn code_of(t: CheckResultErrorType) -> Seq<char> {
    match t {
        CheckResultErrorType::Missing => "missing"@,
        CheckResultErrorType::Size => "size"@,
    }
}

/// Whether two texts hold the same characters.
fn text_eq(a: &str, b: &str) -> (r: bool)
    ensures
        r == (a@ == b@),
{
    let n = a.unicode_len();
    if n != b.unicode_len() {
        return false;
    }
    let mut i: usize = 0;
    while i < n
        invariant
            i <= n,
            n == a@.len(),
            n == b@.len(),
            forall|j: int| 0 <= j < i ==> a@[j] == b@[j],
        decreases n - i,
    {
        if a.get_char(i) != b.get_char(i) {
            return false;
        }
        i = i + 1;
    }
    assert(a@ =~= b@);
    true
}

impl CheckResultErrorType {
    /// Get the error type from code.
    pub fn from_code(code: &str) -> (r: Option<Self>)
        ensures
            r == if code@ == "missing"@ {
                Some(CheckResultErrorType::Missing)
            } else if code@ == "size"@ {
                Some(CheckResultErrorType::Size)
            } else {
                None
            },
    {
        if text_eq(code, "missing") {
            Some(CheckResultErrorType::Missing)
        } else if text_eq(code, "size") {
            Some(CheckResultErrorType::Size)
        } else {
            None
        }
    }

    /// Get the code of the error type as `&str`.
    pub fn as_code(&self) -> (r: &str)
        ensures
            r@ == code_of(*self),
    {
        match self {
            CheckResultErrorType::Missing => "missing",
            CheckResultErrorType::Size => "size",
        }
    }

    /// Get the code of the error type as `String`.
    pub fn to_code(&self) -> (r: String)
        ensures
            r@ == code_of(*self),
    {
        String::from_str(self.as_code())
    }
}

/// Error of the result from the check process.
#[derive(Debug, Clone)]
pub struct CheckResultError {
    /// Type of error of the check.
    pub error_type: CheckResultErrorType,
    /// Error message of the check.
    pub message: String,
    /// Missing chunk(s) to merge the file.
    pub missing: Option<Vec<usize>>,
}

/// Result of the check process.
#[derive(Debug, Clone)]
pub struct CheckResult {
    /// Successful / Failed check.
    pub success: bool,
    /// Error details of the check.
    pub error: Option<CheckResultError>,
}

/// The ordinals, in ascending order, whose chunk was found absent; `probes[i]`
/// is the size of chunk `i`, or `None` when it is not a regular file.
pub open spec fn missing_of(probes: Seq<Option<usize>>) -> Seq<usize>
    decreases probes.len(),
{
    if probes.len() == 0 {
        seq![]
    } else if probes.last() is None {
        missing_of(probes.drop_last()).push((probes.len() - 1) as usize)
    } else {
        missing_of(probes.drop_last())
    }
}

/// The combined size of the chunks that were found.
pub open spec fn size_of(probes: Seq<Option<usize>>) -> nat
    decreases probes.len(),
{
    if probes.len() == 0 {
        0
    } else {
        size_of(probes.drop_last()) + match probes.last() {
            Some(n) => n as nat,
            None => 0,
        }
    }
}

/// The verdict on a chunk set: missing chunks first, then the total size.
pub open spec fn verdict(probes: Seq<Option<usize>>, file_size: nat) -> Option<CheckResultErrorType> {
    if missing_of(probes).len() > 0 {
        Some(CheckResultErrorType::Missing)
    } else if size_of(probes) != file_size {
        Some(CheckResultErrorType::Size)
    } else {
        None
    }
}

/// `r` reports the verdict on `probes`, with the missing ordinals when there are any.
pub open spec fn reports(r: CheckResult, probes: Seq<Option<usize>>, file_size: nat) -> bool {
    &&& r.success == (verdict(probes, file_size) is None)
    &&& match verdict(probes, file_size) {
        None => r.error is None,
        Some(t) => r.error matches Some(e) && e.error_type == t && if t == CheckResultErrorType::Missing {
            e.missing matches Some(m) && m@ == missing_of(probes) && e.message@ == "Missing chunk(s)"@
        } else {
            e.missing is None && e.message@ == "the size of chunks is not equal to file_size parameter"@
        },
    }
}

/// Accounts, chunk by chunk, for a chunk set that is expected to hold
/// `total_chunks` chunks and `file_size` bytes.
pub struct ChunkAudit {
    file_size: usize,
    total_chunks: usize,
    next: usize,
    actual_size: usize,
    oversize: bool,
    missing: Vec<usize>,
    probes: Ghost<Seq<Option<usize>>>,
}

impl ChunkAudit {
    /// The expected size of the file that was split.
    pub closed spec fn expected_size(&self) -> nat {
        self.file_size as nat
    }

    /// The expected number of chunks.
    pub closed spec fn expected_chunks(&self) -> nat {
        self.total_chunks as nat
    }

    /// What was found of chunks `0..probes().len()`, in order.
    pub closed spec fn probes(&self) -> Seq<Option<usize>> {
        self.probes@
    }

    /// The invariant: the missing ordinals and the running size agree with
    /// what was recorded.
    pub closed spec fn wf(&self) -> bool {
        &&& self.next == self.probes@.len()
        &&& self.next <= self.total_chunks
        &&& self.missing@ == missing_of(self.probes@)
        &&& !self.oversize ==> self.actual_size == size_of(self.probes@)
        &&& self.oversize ==> size_of(self.probes@) > usize::MAX
    }

    /// An audit that has looked at no chunk yet.
    pub fn new(file_size: usize, total_chunks: usize) -> (r: Self)
        ensures
            r.wf(),
            r.expected_size() == file_size,
            r.expected_chunks() == total_chunks,
            r.probes() == Seq::<Option<usize>>::empty(),
    {
        ChunkAudit {
            file_size,
            total_chunks,
            next: 0,
            actual_size: 0,
            oversize: false,
            missing: Vec::new(),
            probes: Ghost(Seq::empty()),
        }
    }

    /// The ordinal of the next chunk to look at.
    pub fn next_ordinal(&self) -> (r: usize)
        requires
            self.wf(),
        ensures
            r == self.probes().len(),
    {
        self.next
    }

    /// Whether every expected chunk has been looked at.
    pub fn is_complete(&self) -> (r: bool)
        requires
            self.wf(),
        ensures
            r == (self.probes().len() == self.expected_chunks()),
    {
        self.next == self.total_chunks
    }

    /// Records what was found of the next chunk: its size, or `None` when it
    /// does not exist as a regular file.
    pub fn record(&mut self, found: Option<usize>)
        requires
            old(self).wf(),
            old(self).probes().len() < old(self).expected_chunks(),
        ensures
            final(self).wf(),
            final(self).probes() == old(self).probes().push(found),
            final(self).expected_size() == old(self).expected_size(),
            final(self).expected_chunks() == old(self).expected_chunks(),
    {
        let ghost before = self.probes@;
        proof {
            self.probes@ = self.probes@.push(found);
            assert(self.probes@.drop_last() =~= before);
        }
        match found {
            None => {
                self.missing.push(self.next);
            },
            Some(n) => {
                if !self.oversize {
                    match self.actual_size.checked_add(n) {
                        Some(sum) => {
                            self.actual_size = sum;
                        },
                        None => {
                            self.oversize = true;
                        },
                    }
                }
            },
        }
        self.next = self.next + 1;
    }

    /// The verdict on the chunks looked at.
    pub fn finish(self) -> (r: CheckResult)
        requires
            self.wf(),
            self.probes().len() == self.expected_chunks(),
        ensures
            reports(r, self.probes(), self.expected_size()),
    {
        proof {
            reveal_strlit("Missing chunk(s)");
            reveal_strlit("the size of chunks is not equal to file_size parameter");
        }
        if self.missing.len() > 0 {
            return CheckResult {
                success: false,
                error: Some(
                    CheckResultError {
                        error_type: CheckResultErrorType::Missing,
                        message: String::from_str("Missing chunk(s)"),
                        missing: Some(self.missing),
                    },
                ),
            };
        }
        if self.oversize || self.actual_size != self.file_size {
            return CheckResult {
                success: false,
                error: Some(
                    CheckResultError {
                        error_type: CheckResultErrorType::Size,
                        message: String::from_str("the size of chunks is not equal to file_size parameter"),
                        missing: None,
                    },
                ),
            };
        }
        CheckResult { success: true, error: None }
    }
}

/// Settings of one check, each of them set.
#[derive(Debug, Clone)]
pub struct CheckOptions {
    /// The chunk directory to check.
    pub in_dir: PathBuf,
    /// Size of the file that was split, as the split reported it.
    pub file_size: usize,
    /// Number of chunks, as the split reported it.
    pub total_chunks: usize,
}

/// Process to check the integrity of a chunk set.
#[derive(Debug, Clone)]
pub struct Check {
    pub in_dir: Option<PathBuf>,
    pub file_size: Option<usize>,
    pub total_chunks: Option<usize>,
}

impl Check {
    /// Create a new check process.
    pub fn new() -> (r: Self)
        ensures
            r.in_dir is None,
            r.file_size is None,
            r.total_chunks is None,
    {
        Check { in_dir: None, file_size: None, total_chunks: None }
    }

    /// Create a new check process from an existing one.
    pub fn from<P: Into<Check>>(process: P) -> (r: Self)
        ensures
            P::obeys_into_spec() ==> r == process.into_spec(),
    {
        process.into()
    }

    /// Set the input directory.
    pub fn in_dir(self, path: PathBuf) -> (r: Self)
        ensures
            r.in_dir == Some(path),
            r.file_size == self.file_size,
            r.total_chunks == self.total_chunks,
    {
        Check { in_dir: Some(path), ..self }
    }

    /// Set the size of the file that was split.
    pub fn file_size(self, size: usize) -> (r: Self)
        ensures
            r.in_dir == self.in_dir,
            r.file_size == Some(size),
            r.total_chunks == self.total_chunks,
    {
        Check { file_size: Some(size), ..self }
    }

    /// Set the total number of chunks the file was split into.
    pub fn total_chunks(self, chunks: usize) -> (r: Self)
        ensures
            r.in_dir == self.in_dir,
            r.file_size == self.file_size,
            r.total_chunks == Some(chunks),
    {
        Check { total_chunks: Some(chunks), ..self }
    }

    /// The settings of this check, or the first of them that is not set.
    pub fn options(self) -> (r: Result<CheckOptions, ProcessError>)
        ensures
            r is Ok <==> (self.in_dir is Some && self.file_size is Some && self.total_chunks is Some),
            r matches Ok(o) ==> (Some(o.in_dir) == self.in_dir && Some(o.file_size) == self.file_size
                && Some(o.total_chunks) == self.total_chunks),
            r matches Err(e) ==> (e.kind == ProcessErrorKind::InvalidInput && e.message@ == if self.in_dir is None {
                "in_dir is not set"@
            } else if self.file_size is None {
                "file_size is not set"@
            } else {
                "total_chunks is not set"@
            }),
    {
        let in_dir = match self.in_dir {
            Some(p) => p,
            None => {
                return Err(ProcessError::new(ProcessErrorKind::InvalidInput, "in_dir is not set"));
            },
        };
        let file_size = match self.file_size {
            Some(n) => n,
            None => {
                return Err(ProcessError::new(ProcessErrorKind::InvalidInput, "file_size is not set"));
            },
        };
        let total_chunks = match self.total_chunks {
            Some(n) => n,
            None => {
                return Err(
                    ProcessError::new(ProcessErrorKind::InvalidInput, "total_chunks is not set"),
                );
            },
        };
        Ok(CheckOptions { in_dir, file_size, total_chunks })
    }
}

impl Default for Check {
    fn default() -> (r: Self)
        ensures
            r.in_dir is None,
            r.file_size is None,
            r.total_chunks is None,
    {
        Self::new()
    }
}

} // verus!
