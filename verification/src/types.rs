//! Core data model: identifiers, states, segments, options and probe results.

use vstd::prelude::*;
use crate::range::ByteRange;

verus! {

/// Globally unique transfer identifier, assigned monotonically.
#[derive(Debug, Clone, Copy, PartialEq, Eq, Hash, Structural)]
pub struct DownloadId(pub u64);

#[derive(Debug, Clone, Copy, PartialEq, Eq, Structural)]
pub enum HttpVersion {
    Http1_1,
    Http2,
    Http3,
}

/// Lifecycle of a transfer: `Pending -> Probing -> Downloading -> (Complete |
/// Failed | Cancelled)`, with `Paused` entered from and left back to
/// `Downloading`.
#[derive(Debug, Clone, Copy, PartialEq, Eq, Structural)]
pub enum DownloadState {
    Pending,
    Probing,
    Downloading,
    Paused,
    Complete,
    Failed,
    Cancelled,
}

impl DownloadState {
    /// A terminal state is never left.
    pub open spec fn is_terminal(self) -> bool {
        self is Complete || self is Failed || self is Cancelled
    }
}

#[derive(Debug, Clone, Copy, PartialEq, Eq, Structural)]
pub enum SegmentStatus {
    Pending,
    Active,
    Complete,
    Error,
    Slow,
}

/// One contiguous byte range of the target file, assigned to a single
/// in-flight request at a time.  Speed is in bytes per second.
#[derive(Debug, Clone, Copy, PartialEq, Eq, Structural)]
pub struct SegmentState {
    pub id: usize,
    pub range: ByteRange,
    pub downloaded: u64,
    pub status: SegmentStatus,
    pub speed: u64,
}

impl SegmentState {
    /// Bytes written never exceed the range, and a segment is `Complete`
    /// exactly when every byte of its range has been written.
    pub open spec fn wf(self) -> bool {
        &&& self.range.wf()
        &&& self.downloaded <= self.range.spec_len()
        &&& (self.status is Complete <==> self.downloaded == self.range.spec_len())
    }

    /// A fresh segment; an empty range counts as already complete.
    pub fn new(id: usize, range: ByteRange) -> (s: SegmentState)
        ensures
            s.id == id,
            s.range == range,
            s.downloaded == 0,
            s.speed == 0,
            s.status == if range.spec_len() == 0 {
                SegmentStatus::Complete
            } else {
                SegmentStatus::Pending
            },
            range.wf() ==> s.wf(),
    {
        let status = if range.is_empty() {
            SegmentStatus::Complete
        } else {
            SegmentStatus::Pending
        };
        SegmentState { id, range, downloaded: 0, status, speed: 0 }
    }

    pub fn remaining(&self) -> (n: u64)
        ensures
            n == if self.downloaded <= self.range.spec_len() {
                self.range.spec_len() - self.downloaded
            } else {
                0int
            },
    {
        self.range.len().saturating_sub(self.downloaded)
    }

    /// Completed share of the range, in thousandths; an empty range counts
    /// as fully downloaded.
    pub fn progress_permille(&self) -> (p: u32)
        requires
            self.downloaded <= self.range.spec_len(),
        ensures
            p == if self.range.spec_len() == 0 {
                1000int
            } else {
                self.downloaded * 1000 / self.range.spec_len()
            },
            p <= 1000,
    {
        let len = self.range.len();
        if len == 0 {
            return 1000;
        }
        let p = ((self.downloaded as u128) * 1000 / (len as u128)) as u32;
        proof {
            assert(self.downloaded as int * 1000 / len as int <= 1000) by (nonlinear_arith)
                requires
                    0 < len as int,
                    0 <= self.downloaded as int <= len as int,
            ;
        }
        p
    }
}

/// Scheduling priority of a queued transfer, most urgent first.
#[derive(Debug, Clone, Copy, PartialEq, Eq, Structural)]
pub enum Priority {
    Critical,
    High,
    Normal,
    Low,
    Background,
}

pub open spec fn spec_priority_rank(p: Priority) -> u8 {
    match p {
        Priority::Critical => 0u8,
        Priority::High => 1u8,
        Priority::Normal => 2u8,
        Priority::Low => 3u8,
        Priority::Background => 4u8,
    }
}

/// Numeric rank of a priority; lower runs first.
pub fn priority_rank(p: Priority) -> (r: u8)
    ensures
        r == spec_priority_rank(p),
{
    match p {
        Priority::Critical => 0,
        Priority::High => 1,
        Priority::Normal => 2,
        Priority::Low => 3,
        Priority::Background => 4,
    }
}

impl Default for Priority {
    fn default() -> (p: Priority)
        ensures
            p == Priority::Normal,
    {
        Priority::Normal
    }
}

/// What the caller asks of a transfer.  URLs and paths are carried as plain
/// strings; the I/O layer parses them at its edge.
#[derive(Debug, Clone)]
pub struct DownloadOptions {
    pub url: String,
    pub output_dir: String,
    pub filename: Option<String>,
    pub segments: Option<usize>,
    pub priority: Priority,
    pub bandwidth_limit: Option<u64>,
    pub headers: Vec<(String, String)>,
    pub checksum: Option<String>,
}

/// Result of probing a resource.  The round-trip time is in milliseconds.
#[derive(Debug, Clone)]
pub struct ResourceInfo {
    pub url: String,
    pub size: Option<u64>,
    pub supports_range: bool,
    pub etag: Option<String>,
    pub last_modified: Option<String>,
    pub content_type: Option<String>,
    pub filename: Option<String>,
    pub http_version: HttpVersion,
    pub connection_rtt_ms: Option<u64>,
}

/// Command-line options of one download run, as plain data.
#[derive(Debug, Clone)]
pub struct DownloadArgs {
    pub output: Option<String>,
    pub name: Option<String>,
    pub segments: Option<usize>,
    pub limit: Option<String>,
    pub turbo: bool,
    pub no_resume: bool,
    pub checksum: Option<String>,
    pub quiet: bool,
    pub mirrors: Vec<String>,
}

/// A progress snapshot published to observers.  Speed is in bytes per second.
#[derive(Debug, Clone)]
pub struct DownloadProgress {
    pub id: DownloadId,
    pub downloaded: u64,
    pub total: Option<u64>,
    pub speed: u64,
    pub eta_secs: Option<u64>,
    pub segments: Vec<SegmentState>,
    pub state: DownloadState,
}

} // verus!
