//! The sidecar line index of a log file. Each log file (e.g. `web.stdout`)
//! has a companion `.idx` file that maps line numbers to byte offsets, so
//! lines can be read without scanning the whole log.
//!
//! The index is a 16-byte header — the magic `LIDX`, the version 1 as a
//! little-endian `u32`, and the sequence number of the first line as a
//! little-endian `u64` — followed by one 16-byte record per line: the byte
//! offset where the line starts and its global sequence number, both
//! little-endian `u64`s.

use vstd::prelude::*;
use vstd::bytes::{spec_u32_from_le_bytes, spec_u32_to_le_bytes, spec_u64_from_le_bytes, spec_u64_to_le_bytes, u32_from_le_bytes, u32_to_le_bytes, u64_from_le_bytes, u64_to_le_bytes};
use crate::text::{decimal, push_decimal};

verus! {

/// The index format version.
pub const VERSION: u32 = 1;
/// Bytes of the header.
pub const HEADER_SIZE: u64 = 16;
/// Bytes of one record.
pub const RECORD_SIZE: u64 = 16;

/// The magic bytes that open an index: `LIDX`.
pub open spec fn magic() -> Seq<u8> {
    seq![76u8, 73u8, 68u8, 88u8]
}

/// The index path of a log path: the log path with `.idx` appended.
pub fn idx_path_for(log_path: &str) -> (r: String)
    ensures
        r@ == log_path@ + ".idx"@,
{
    let mut s = String::new();
    s.append(log_path);
    s.append(".idx");
    s
}

/// The offset where a line starts and its global sequence number.
#[derive(Debug, Clone, Copy, PartialEq, Eq, Structural)]
pub struct IndexRecord {
    pub byte_offset: u64,
    pub seq: u64,
}

/// The bytes of the header of an index whose first line has `seq_base`.
pub open spec fn header_bytes(seq_base: u64) -> Seq<u8> {
    magic() + spec_u32_to_le_bytes(VERSION) + spec_u64_to_le_bytes(seq_base)
}

/// The bytes of one record.
pub open spec fn record_bytes(r: IndexRecord) -> Seq<u8> {
    spec_u64_to_le_bytes(r.byte_offset) + spec_u64_to_le_bytes(r.seq)
}

/// The header of an index whose first line has `seq_base`.
pub fn encode_header(seq_base: u64) -> (r: Vec<u8>)
    ensures
        r@ == header_bytes(seq_base),
        r@.len() == HEADER_SIZE,
{
    proof {
        vstd::bytes::lemma_auto_spec_u32_to_from_le_bytes();
        vstd::bytes::lemma_auto_spec_u64_to_from_le_bytes();
    }
    let mut out: Vec<u8> = vec![76u8, 73u8, 68u8, 88u8];
    let mut v = u32_to_le_bytes(VERSION);
    let mut b = u64_to_le_bytes(seq_base);
    out.append(&mut v);
    out.append(&mut b);
    assert(out@ =~= header_bytes(seq_base));
    out
}

/// The bytes of one record.
pub fn encode_record(rec: IndexRecord) -> (r: Vec<u8>)
    ensures
        r@ == record_bytes(rec),
        r@.len() == RECORD_SIZE,
{
    proof {
        vstd::bytes::lemma_auto_spec_u64_to_from_le_bytes();
    }
    let mut out = u64_to_le_bytes(rec.byte_offset);
    let mut s = u64_to_le_bytes(rec.seq);
    out.append(&mut s);
    out
}

/// What a header says: the sequence number of the first line, where the
/// first 16 bytes open with the magic and version 1; `None` for a file
/// too short or of another format.
pub open spec fn header_seq_base(bytes: Seq<u8>) -> Option<u64> {
    if bytes.len() < HEADER_SIZE {
        None
    } else if bytes.subrange(0, 4) != magic() {
        None
    } else if spec_u32_from_le_bytes(bytes.subrange(4, 8)) != VERSION {
        None
    } else {
        Some(spec_u64_from_le_bytes(bytes.subrange(8, 16)))
    }
}

/// Reads the header at the start of `bytes`.
pub fn decode_header(bytes: &[u8]) -> (r: Option<u64>)
    ensures
        r == header_seq_base(bytes@),
{
    if bytes.len() < 16 {
        return None;
    }
    if !(bytes[0] == 76u8 && bytes[1] == 73u8 && bytes[2] == 68u8 && bytes[3] == 88u8) {
        proof {
            if bytes@.subrange(0, 4) == magic() {
                assert(bytes@.subrange(0, 4)[0] == 76u8);
                assert(bytes@.subrange(0, 4)[1] == 73u8);
                assert(bytes@.subrange(0, 4)[2] == 68u8);
                assert(bytes@.subrange(0, 4)[3] == 88u8);
            }
        }
        return None;
    }
    assert(bytes@.subrange(0, 4) =~= magic());
    let v = crate::text::slice_range(bytes, 4, 8);
    let version = u32_from_le_bytes(v.as_slice());
    if version != VERSION {
        return None;
    }
    let s = crate::text::slice_range(bytes, 8, 16);
    Some(u64_from_le_bytes(s.as_slice()))
}

/// The records in `bytes`, one per whole 16 bytes (a partial record at the
/// end is ignored).
pub open spec fn records_of(bytes: Seq<u8>) -> Seq<IndexRecord> {
    Seq::new(
        bytes.len() / 16,
        |k: int| IndexRecord {
            byte_offset: spec_u64_from_le_bytes(bytes.subrange(16 * k, 16 * k + 8)),
            seq: spec_u64_from_le_bytes(bytes.subrange(16 * k + 8, 16 * k + 16)),
        },
    )
}

/// Reads the records in `bytes`.
pub fn decode_records(bytes: &[u8]) -> (r: Vec<IndexRecord>)
    ensures
        r@ == records_of(bytes@),
{
    let n = bytes.len() / 16;
    let mut out: Vec<IndexRecord> = Vec::new();
    let mut k: usize = 0;
    while k < n
        invariant
            n == bytes@.len() / 16,
            bytes@.len() <= usize::MAX,
            k <= n,
            out@ == records_of(bytes@).take(k as int),
        decreases n - k,
    {
        assert(16 * k + 16 <= bytes@.len()) by (nonlinear_arith)
            requires
                k < n,
                n == bytes@.len() / 16,
        ;
        let a = crate::text::slice_range(bytes, 16 * k, 16 * k + 8);
        let b = crate::text::slice_range(bytes, 16 * k + 8, 16 * k + 16);
        let rec = IndexRecord { byte_offset: u64_from_le_bytes(a.as_slice()), seq: u64_from_le_bytes(b.as_slice()) };
        out.push(rec);
        assert(records_of(bytes@).take(k + 1) =~= records_of(bytes@).take(k as int).push(rec));
        k = k + 1;
    }
    assert(records_of(bytes@).take(n as int) =~= records_of(bytes@));
    out
}

/// The number of lines an index file of `len` bytes holds.
pub open spec fn line_count_of_len(len: u64) -> u64 {
    if len < HEADER_SIZE { 0 } else { ((len - HEADER_SIZE) as int / RECORD_SIZE as int) as u64 }
}

/// The number of lines an index file of `len` bytes holds (0 for a file
/// shorter than the header).
pub fn line_count_from_len(len: u64) -> (r: u64)
    ensures
        r == line_count_of_len(len),
{
    if len < HEADER_SIZE { 0 } else { (len - HEADER_SIZE) / RECORD_SIZE }
}

/// Where the records of lines `[start, start + count)` lie in an index of
/// `line_count` lines, clamped to the lines it has: the byte offset and the
/// number of records to read.
pub fn record_span(line_count: usize, start: usize, count: usize) -> (r: (u64, usize))
    requires
        start + count <= usize::MAX,
        HEADER_SIZE + start * RECORD_SIZE <= u64::MAX,
    ensures
        r.1 == (if start + count <= line_count {
            count as int
        } else if line_count >= start {
            line_count - start
        } else {
            0
        }),
        r.0 == HEADER_SIZE + start * RECORD_SIZE,
{
    let end = if start + count <= line_count { start + count } else { line_count };
    let actual = if end >= start { end - start } else { 0 };
    (HEADER_SIZE + (start as u64) * RECORD_SIZE, actual)
}

/// The message of a read past the last line.
pub fn out_of_range_message(line: usize, count: usize) -> (r: String)
    ensures
        r@ == "line "@ + decimal(line as nat) + " out of range (count: "@ + decimal(count as nat) + ")"@,
{
    let mut s = String::new();
    s.append("line ");
    push_decimal(&mut s, line as u64);
    s.append(" out of range (count: ");
    push_decimal(&mut s, count as u64);
    s.append(")");
    s
}

/// A header read back gives the sequence number it was written with.
pub proof fn lemma_header_roundtrip(seq_base: u64)
    ensures
        header_seq_base(header_bytes(seq_base)) == Some(seq_base),
{
    vstd::bytes::lemma_auto_spec_u32_to_from_le_bytes();
    vstd::bytes::lemma_auto_spec_u64_to_from_le_bytes();
    let h = header_bytes(seq_base);
    assert(h.subrange(0, 4) =~= magic());
    assert(h.subrange(4, 8) =~= spec_u32_to_le_bytes(VERSION));
    assert(h.subrange(8, 16) =~= spec_u64_to_le_bytes(seq_base));
}

/// Records read back are the records written, in order, and an index of
/// `n` records holds `n` lines.
pub proof fn lemma_records_roundtrip(recs: Seq<IndexRecord>, seq_base: u64)
    ensures
        records_of(recs.fold_left(Seq::<u8>::empty(), |acc: Seq<u8>, r: IndexRecord| acc + record_bytes(r))) == recs,
        line_count_of_len((HEADER_SIZE + 16 * recs.len()) as u64) == recs.len() || HEADER_SIZE + 16 * recs.len() > u64::MAX,
    decreases recs.len(),
{
    vstd::bytes::lemma_auto_spec_u64_to_from_le_bytes();
    let f = |acc: Seq<u8>, r: IndexRecord| acc + record_bytes(r);
    if recs.len() == 0 {
        assert(records_of(Seq::<u8>::empty()) =~= recs);
    } else {
        let init = recs.drop_last();
        lemma_records_roundtrip(init, seq_base);
        let b0 = init.fold_left(Seq::<u8>::empty(), f);
        lemma_fold_len(init);
        let b = recs.fold_left(Seq::<u8>::empty(), f);
        assert(b == b0 + record_bytes(recs.last()));
        let n = init.len();
        assert(b.len() == 16 * n + 16);
        assert(b.len() / 16 == n + 1) by (nonlinear_arith)
            requires
                b.len() == 16 * n + 16,
        ;
        assert forall|k: int| 0 <= k < n + 1 implies #[trigger] records_of(b)[k] == recs[k] by {
            if k < n {
                assert(b.subrange(16 * k, 16 * k + 8) =~= b0.subrange(16 * k, 16 * k + 8));
                assert(b.subrange(16 * k + 8, 16 * k + 16) =~= b0.subrange(16 * k + 8, 16 * k + 16));
                assert(b0.len() / 16 == n) by (nonlinear_arith)
                    requires
                        b0.len() == 16 * n,
                ;
                assert(records_of(b0)[k] == recs[k]);
            } else {
                assert(b.subrange(16 * k, 16 * k + 8) =~= spec_u64_to_le_bytes(recs.last().byte_offset));
                assert(b.subrange(16 * k + 8, 16 * k + 16) =~= spec_u64_to_le_bytes(recs.last().seq));
            }
        }
        assert(records_of(b) =~= recs);
    }
    if HEADER_SIZE + 16 * recs.len() <= u64::MAX {
        let len = (HEADER_SIZE + 16 * recs.len()) as u64;
        assert((len - HEADER_SIZE) as int / RECORD_SIZE as int == recs.len()) by (nonlinear_arith)
            requires
                len == 16 + 16 * recs.len(),
        ;
    }
}

proof fn lemma_fold_len(recs: Seq<IndexRecord>)
    ensures
        recs.fold_left(Seq::<u8>::empty(), |acc: Seq<u8>, r: IndexRecord| acc + record_bytes(r)).len() == 16 * recs.len(),
    decreases recs.len(),
{
    vstd::bytes::lemma_auto_spec_u64_to_from_le_bytes();
    if recs.len() > 0 {
        lemma_fold_len(recs.drop_last());
    }
}

} // verus!
