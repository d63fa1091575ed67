//! The bookkeeping of a process's log file: when it is rotated, where each
//! line starts, and when its index is flushed. The caller does the writes.

use vstd::prelude::*;
use crate::protocol::Stream;
use crate::text::{decimal, push_decimal};

verus! {

/// Rotated log files kept by default.
pub const DEFAULT_MAX_ROTATED_FILES: u32 = 5;

/// Largest log file before it is rotated, by default (50 MiB).
pub const DEFAULT_MAX_LOG_BYTES: u64 = 52428800;

/// Lines between two flushes of the index.
pub const INDEX_FLUSH_LINES: u32 = 64;

/// A line of output of a managed process.
#[derive(Debug, Clone, PartialEq)]
pub struct OutputLine {
    pub process: String,
    pub stream: Stream,
    pub line: String,
}

/// What the log of one stream has taken so far.
pub struct LogCounters {
    /// Bytes in the current log file.
    pub bytes_written: u64,
    /// Lines since the index was last flushed.
    pub lines_since_flush: u32,
    /// Largest file before rotation (0: never rotate).
    pub max_bytes: u64,
}

/// What to do for one line.
pub struct WriteStep {
    /// Rotate the files (and start a new index) before writing.
    pub rotate: bool,
    /// Where the line starts in the (possibly new) file.
    pub byte_offset: u64,
    /// Flush the index after the line.
    pub flush_index: bool,
}

impl LogCounters {
    /// Fresh counters for a file that already holds `bytes` bytes.
    pub fn new(bytes: u64, max_bytes: u64) -> (r: LogCounters)
        ensures
            r.bytes_written == bytes,
            r.lines_since_flush == 0,
            r.max_bytes == max_bytes,
    {
        LogCounters { bytes_written: bytes, lines_since_flush: 0, max_bytes }
    }

    /// Plans the write of a line of `line_len` bytes (plus its newline):
    /// the files rotate first when a limit is set and the line would take
    /// the file past it; the line starts where the file ends; the index is
    /// flushed every 64 lines.
    pub fn plan_write(&mut self, line_len: u64) -> (r: WriteStep)
        requires
            line_len < u64::MAX,
            old(self).bytes_written + line_len + 1 <= u64::MAX,
        ensures
            ({
                let lb = line_len + 1;
                let rot = old(self).max_bytes > 0 && old(self).bytes_written + lb > old(self).max_bytes;
                let start = if rot { 0 } else { old(self).bytes_written };
                let count = if rot { 1 } else { old(self).lines_since_flush + 1 };
                &&& r.rotate == rot
                &&& r.byte_offset == start
                &&& final(self).bytes_written == start + lb
                &&& r.flush_index == (count >= INDEX_FLUSH_LINES)
                &&& final(self).lines_since_flush == (if count >= INDEX_FLUSH_LINES { 0 } else { count })
                &&& final(self).max_bytes == old(self).max_bytes
            }),
    {
        let lb = line_len + 1;
        let rotate = self.max_bytes > 0 && self.bytes_written + lb > self.max_bytes;
        if rotate {
            self.bytes_written = 0;
            self.lines_since_flush = 0;
        }
        let byte_offset = self.bytes_written;
        self.bytes_written = self.bytes_written + lb;
        let count: u32 = if self.lines_since_flush < u32::MAX { self.lines_since_flush + 1 } else { u32::MAX };
        let flush = count >= INDEX_FLUSH_LINES;
        self.lines_since_flush = if flush { 0 } else { count };
        WriteStep { rotate, byte_offset, flush_index: flush }
    }
}

/// The renames of a rotation keeping `max` files, as pairs of generation
/// numbers (0 is the current file, `n` its `.n` copy), in the order they
/// are made: each copy moves up one, the highest first, then the current
/// file becomes `.1`. The copy `.max+1` is then deleted.
pub open spec fn rotation_spec(max: u32) -> Seq<(u32, u32)> {
    Seq::new(
        if max >= 1 { (max - 1) as nat } else { 0 },
        |k: int| ((max - 1 - k) as u32, (max - k) as u32),
    ).push((0u32, 1u32))
}

/// The renames of a rotation keeping `max` files.
pub fn rotation_renames(max: u32) -> (r: Vec<(u32, u32)>)
    ensures
        r@ == rotation_spec(max),
{
    let mut out: Vec<(u32, u32)> = Vec::new();
    if max >= 1 {
        let mut i: u32 = max - 1;
        while i >= 1
            invariant
                max >= 1,
                i <= max - 1,
                out@ == Seq::new((max - 1 - i) as nat, |k: int| ((max - 1 - k) as u32, (max - k) as u32)),
            decreases i,
        {
            out.push((i, i + 1));
            assert(out@ =~= Seq::new((max - 1 - (i - 1)) as nat, |k: int| ((max - 1 - k) as u32, (max - k) as u32)));
            i = i - 1;
        }
    }
    out.push((0, 1));
    assert(out@ =~= rotation_spec(max));
    out
}


/// The name of rotation `n` of the log at `log_path`: the log itself for
/// 0, else the log's name with `.n` appended.
pub open spec fn rotated_name_spec(log_path: Seq<char>, n: u32) -> Seq<char> {
    if n == 0 {
        log_path
    } else {
        log_path + "."@ + decimal(n as nat)
    }
}

/// The name of rotation `n` of a log.
pub fn rotated_log_name(log_path: &str, n: u32) -> (r: String)
    ensures
        r@ == rotated_name_spec(log_path@, n),
{
    let mut s = String::new();
    s.append(log_path);
    if n > 0 {
        s.append(".");
        push_decimal(&mut s, n as u64);
    }
    s
}

} // verus!
