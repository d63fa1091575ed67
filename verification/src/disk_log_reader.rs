//! Random access to disk-backed logs: the arithmetic of reading a window
//! of lines from a log that is split over rotated segment files, and the
//! merge of the two streams of a process by sequence number.

use vstd::prelude::*;

verus! {

/// The stream a stored line came from.
#[derive(Debug, Clone, Copy, PartialEq, Eq, Structural)]
pub enum LineSource {
    Stdout,
    Stderr,
}

/// Which streams a view shows.
#[derive(Debug, Clone, Copy, PartialEq, Eq, Structural)]
pub enum StreamMode {
    Stdout,
    Stderr,
    Both,
}

} // verus!

verus! {

/// The lines before segment `i`: the sum of the first `i` line counts.
pub open spec fn lines_before(counts: Seq<usize>, i: int) -> int
    decreases i,
{
    if i <= 0 { 0 } else { lines_before(counts, i - 1) + counts[i - 1] }
}

/// The reads that fetch lines `[start, end)` of a log split into segments
/// of `counts` lines, oldest first: for each segment that holds some of
/// them, its position, the first line to read in it and how many.
pub open spec fn segment_reads_spec(counts: Seq<usize>, start: int, end: int, n: int) -> Seq<(usize, usize, usize)>
    decreases n,
{
    if n <= 0 {
        Seq::empty()
    } else {
        let rest = segment_reads_spec(counts, start, end, n - 1);
        let i = n - 1;
        let c = lines_before(counts, i);
        let e = c + counts[i];
        if e <= start || c >= end {
            rest
        } else {
            let from = if start > c { start } else { c };
            let to = if end < e { end } else { e };
            rest.push((i as usize, (from - c) as usize, (to - from) as usize))
        }
    }
}

proof fn lemma_lines_before_mono(counts: Seq<usize>, i: int, j: int)
    requires
        0 <= i <= j <= counts.len(),
    ensures
        lines_before(counts, i) <= lines_before(counts, j),
    decreases j - i,
{
    if i < j {
        lemma_lines_before_mono(counts, i, j - 1);
    }
}

/// The reads that fetch `count` lines from line `start` on, of a log
/// split into segments of `counts` lines, oldest first.
pub fn segment_reads(counts: &[usize], start: usize, count: usize) -> (r: Vec<(usize, usize, usize)>)
    requires
        lines_before(counts@, counts@.len() as int) <= usize::MAX,
        start + count <= usize::MAX,
    ensures
        r@ == segment_reads_spec(counts@, start as int, start + count, counts@.len() as int),
{
    let mut out: Vec<(usize, usize, usize)> = Vec::new();
    let mut cumulative: usize = 0;
    let window_end = start + count;
    let mut i: usize = 0;
    while i < counts.len()
        invariant
            i <= counts@.len(),
            window_end == start + count,
            cumulative == lines_before(counts@, i as int),
            lines_before(counts@, counts@.len() as int) <= usize::MAX,
            out@ == segment_reads_spec(counts@, start as int, window_end as int, i as int),
        decreases counts.len() - i,
    {
        proof {
            lemma_lines_before_mono(counts@, i + 1, counts@.len() as int);
        }
        let seg_end = cumulative + counts[i];
        if !(seg_end <= start || cumulative >= window_end) {
            let from = if start > cumulative { start } else { cumulative };
            let to = if window_end < seg_end { window_end } else { seg_end };
            out.push((i, from - cumulative, to - from));
        }
        cumulative = seg_end;
        i = i + 1;
    }
    out
}

/// Whether segment `i` holds line `line`.
pub open spec fn holds_line(counts: Seq<usize>, i: int, line: int) -> bool {
    0 <= i < counts.len() && lines_before(counts, i) <= line < lines_before(counts, i + 1)
}

/// The segment that holds line `line` of a log split into segments of
/// `counts` lines, and the line's position in it.
pub open spec fn locate_spec(counts: Seq<usize>, line: int) -> Option<(usize, usize)> {
    if exists|i: int| holds_line(counts, i, line) {
        let i = choose|i: int| holds_line(counts, i, line);
        Some((i as usize, (line - lines_before(counts, i)) as usize))
    } else {
        None
    }
}

proof fn lemma_locate_unique(counts: Seq<usize>, line: int, i: int)
    requires
        0 <= i < counts.len(),
        lines_before(counts, i) <= line < lines_before(counts, i + 1),
    ensures
        locate_spec(counts, line) == Some((i as usize, (line - lines_before(counts, i)) as usize)),
{
    assert(holds_line(counts, i, line));
    let c = choose|k: int| holds_line(counts, k, line);
    assert(holds_line(counts, c, line));
    if c < i {
        lemma_lines_before_mono(counts, c + 1, i);
    } else if c > i {
        lemma_lines_before_mono(counts, i + 1, c);
    }
}

/// Finds the segment holding line `line`, and the line's place in it;
/// `None` past the last line.
pub fn locate_line(counts: &[usize], line: usize) -> (r: Option<(usize, usize)>)
    requires
        lines_before(counts@, counts@.len() as int) <= usize::MAX,
    ensures
        r == locate_spec(counts@, line as int),
{
    let mut cumulative: usize = 0;
    let mut i: usize = 0;
    while i < counts.len()
        invariant
            i <= counts@.len(),
            cumulative == lines_before(counts@, i as int),
            cumulative <= line || i == 0,
            line >= lines_before(counts@, i as int),
            lines_before(counts@, counts@.len() as int) <= usize::MAX,
        decreases counts.len() - i,
    {
        proof {
            lemma_lines_before_mono(counts@, i + 1, counts@.len() as int);
        }
        if line < cumulative + counts[i] {
            proof {
                lemma_locate_unique(counts@, line as int, i as int);
            }
            return Some((i, line - cumulative));
        }
        cumulative = cumulative + counts[i];
        i = i + 1;
    }
    proof {
        if exists|k: int| holds_line(counts@, k, line as int) {
            let k = choose|k: int| holds_line(counts@, k, line as int);
            lemma_lines_before_mono(counts@, k + 1, counts@.len() as int);
        }
    }
    None
}

/// One line of the merged view of both streams: its sequence number, its
/// stream, and its number within that stream.
pub type MergeEntry = (u64, LineSource, usize);

/// `e` placed into the sorted `s` after every entry whose sequence number
/// is not larger, so entries of equal numbers keep their order.
pub open spec fn insert_by_seq(s: Seq<MergeEntry>, e: MergeEntry) -> Seq<MergeEntry>
    decreases s.len(),
{
    if s.len() == 0 {
        seq![e]
    } else if s.last().0 <= e.0 {
        s.push(e)
    } else {
        insert_by_seq(s.drop_last(), e).push(s.last())
    }
}

/// The entries sorted by sequence number, stably (an insertion sort).
pub open spec fn sort_by_seq(s: Seq<MergeEntry>) -> Seq<MergeEntry>
    decreases s.len(),
{
    if s.len() == 0 {
        Seq::empty()
    } else {
        insert_by_seq(sort_by_seq(s.drop_last()), s.last())
    }
}

/// Whether the entries are in order of sequence number.
pub open spec fn seq_sorted(s: Seq<MergeEntry>) -> bool {
    forall|i: int, j: int| 0 <= i < j < s.len() ==> (#[trigger] s[i]).0 <= (#[trigger] s[j]).0
}

/// Inserts `e` into the sorted `v`, after the entries whose sequence
/// number is not larger.
fn insert_entry(v: &mut Vec<MergeEntry>, e: MergeEntry)
    ensures
        final(v)@ == insert_by_seq(old(v)@, e),
    decreases old(v)@.len(),
{
    if v.len() == 0 {
        v.push(e);
        assert(v@ =~= seq![e]);
    } else {
        let last = v[v.len() - 1];
        if last.0 <= e.0 {
            v.push(e);
        } else {
            let ghost s = v@;
            let l = v.pop().unwrap();
            assert(v@ =~= s.drop_last());
            insert_entry(v, e);
            v.push(l);
        }
    }
}

/// The lines of both streams in the order they were written: all entries
/// sorted by sequence number, those of equal numbers in their given order
/// (stdout before stderr, each in line order).
pub fn merge_by_seq(entries: &Vec<MergeEntry>) -> (r: Vec<MergeEntry>)
    ensures
        r@ == sort_by_seq(entries@),
{
    let mut out: Vec<MergeEntry> = Vec::new();
    let mut i: usize = 0;
    while i < entries.len()
        invariant
            i <= entries@.len(),
            out@ == sort_by_seq(entries@.take(i as int)),
        decreases entries.len() - i,
    {
        assert(entries@.take(i + 1).drop_last() =~= entries@.take(i as int));
        insert_entry(&mut out, entries[i]);
        i = i + 1;
    }
    assert(entries@.take(entries@.len() as int) =~= entries@);
    out
}

proof fn lemma_insert_sorted(s: Seq<MergeEntry>, e: MergeEntry)
    requires
        seq_sorted(s),
    ensures
        seq_sorted(insert_by_seq(s, e)),
        insert_by_seq(s, e).to_multiset() == s.to_multiset().insert(e),
        insert_by_seq(s, e).len() == s.len() + 1,
        forall|k: int| 0 <= k < insert_by_seq(s, e).len() ==> (#[trigger] insert_by_seq(s, e)[k]).0 <= e.0 || s.contains(insert_by_seq(s, e)[k]),
    decreases s.len(),
{
    broadcast use vstd::multiset::group_multiset_axioms, vstd::seq_lib::group_to_multiset_ensures;
    if s.len() == 0 {
        assert(insert_by_seq(s, e) =~= seq![e]);
        assert(seq![e] =~= Seq::<MergeEntry>::empty().push(e));
    } else if s.last().0 <= e.0 {
    } else {
        let t = s.drop_last();
        lemma_insert_sorted(t, e);
        let u = insert_by_seq(t, e);
        assert(s =~= t.push(s.last()));
        assert forall|k: int| 0 <= k < u.len() implies (#[trigger] u[k]).0 <= s.last().0 by {
            if !(u[k].0 <= e.0) {
                assert(t.contains(u[k]));
                let m = choose|m: int| 0 <= m < t.len() && t[m] == u[k];
                assert(s[m] == t[m]);
            }
        }
        assert forall|k: int| 0 <= k < u.len() + 1 implies (#[trigger] u.push(s.last())[k]).0 <= e.0 || s.contains(u.push(s.last())[k]) by {
            if k == u.len() {
                assert(s[s.len() - 1] == s.last());
            } else if !(u[k].0 <= e.0) {
                let m = choose|m: int| 0 <= m < t.len() && t[m] == u[k];
                assert(s[m] == t[m]);
            }
        }
    }
}

/// The merged view is in order of sequence number and holds every line
/// once.
pub proof fn lemma_merge_sorted(s: Seq<MergeEntry>)
    ensures
        seq_sorted(sort_by_seq(s)),
        sort_by_seq(s).to_multiset() == s.to_multiset(),
        sort_by_seq(s).len() == s.len(),
    decreases s.len(),
{
    broadcast use vstd::multiset::group_multiset_axioms, vstd::seq_lib::group_to_multiset_ensures;
    if s.len() > 0 {
        lemma_merge_sorted(s.drop_last());
        lemma_insert_sorted(sort_by_seq(s.drop_last()), s.last());
        assert(s =~= s.drop_last().push(s.last()));
    } else {
        assert(sort_by_seq(s) =~= Seq::<MergeEntry>::empty());
    }
}

/// Milliseconds a list of segments is trusted before the disk is probed
/// again.
pub const SEGMENT_CACHE_TTL_MS: u64 = 500;

/// Line counts of the log segments of one process, per stream, oldest
/// first, as last probed.
pub struct SegmentCache {
    pub stdout: Vec<usize>,
    pub stderr: Vec<usize>,
    pub refreshed_at_ms: u64,
}

/// Windowed access to the disk logs of one process (the current file and
/// its rotations `.1`, `.2`, ...), from a cache of their line counts.
pub struct DiskLogReader {
    pub log_dir: String,
    pub process: String,
    pub cache: Option<SegmentCache>,
}

/// The lines of a stream with segments of `counts` lines.
pub open spec fn total_lines(counts: Seq<usize>) -> int {
    lines_before(counts, counts.len() as int)
}

impl DiskLogReader {
    /// A reader of the logs of `process` in `log_dir`, with nothing cached.
    pub fn new(log_dir: String, process: String) -> (r: DiskLogReader)
        ensures
            r.log_dir == log_dir,
            r.process == process,
            r.cache is None,
    {
        DiskLogReader { log_dir, process, cache: None }
    }

    /// Whether the segments must be probed again at `now_ms`: nothing is
    /// cached, or the cache is older than the time to live.
    pub fn is_stale(&self, now_ms: u64) -> (r: bool)
        ensures
            r == match self.cache {
                None => true,
                Some(c) => now_ms >= c.refreshed_at_ms && now_ms - c.refreshed_at_ms > SEGMENT_CACHE_TTL_MS,
            },
    {
        match &self.cache {
            None => true,
            Some(c) => now_ms >= c.refreshed_at_ms && now_ms - c.refreshed_at_ms > SEGMENT_CACHE_TTL_MS,
        }
    }

    /// Records freshly probed segments.
    pub fn refresh(&mut self, stdout: Vec<usize>, stderr: Vec<usize>, now_ms: u64)
        ensures
            final(self).cache matches Some(c) && c.stdout == stdout && c.stderr == stderr && c.refreshed_at_ms == now_ms,
            final(self).log_dir == old(self).log_dir,
            final(self).process == old(self).process,
    {
        self.cache = Some(SegmentCache { stdout, stderr, refreshed_at_ms: now_ms });
    }

    /// The lines of one stream across its current and rotated files
    /// (saturating at `usize::MAX`); 0 before the first probe.
    pub fn line_count(&self, source: LineSource) -> (r: usize)
        ensures
            r == match self.cache {
                None => 0,
                Some(c) => {
                    let t = total_lines(match source { LineSource::Stdout => c.stdout@, LineSource::Stderr => c.stderr@ });
                    if t <= usize::MAX { t } else { usize::MAX as int }
                },
            },
    {
        match &self.cache {
            None => 0,
            Some(c) => match source {
                LineSource::Stdout => sum_counts(&c.stdout),
                LineSource::Stderr => sum_counts(&c.stderr),
            },
        }
    }

    /// The lines of the merged view of both streams (saturating).
    pub fn line_count_both(&self) -> (r: usize)
        ensures
            r == match self.cache {
                None => 0,
                Some(c) => {
                    let a = if total_lines(c.stdout@) <= usize::MAX { total_lines(c.stdout@) } else { usize::MAX as int };
                    let b = if total_lines(c.stderr@) <= usize::MAX { total_lines(c.stderr@) } else { usize::MAX as int };
                    if a + b <= usize::MAX { a + b } else { usize::MAX as int }
                },
            },
    {
        let a = self.line_count(LineSource::Stdout);
        let b = self.line_count(LineSource::Stderr);
        a.saturating_add(b)
    }
}

/// The sum of the counts, saturating at `usize::MAX`.
fn sum_counts(counts: &Vec<usize>) -> (r: usize)
    ensures
        r == (if total_lines(counts@) <= usize::MAX { total_lines(counts@) } else { usize::MAX as int }),
{
    let mut total: usize = 0;
    let mut i: usize = 0;
    let mut saturated = false;
    while i < counts.len()
        invariant
            i <= counts@.len(),
            saturated ==> total == usize::MAX && lines_before(counts@, i as int) > usize::MAX,
            !saturated ==> total == lines_before(counts@, i as int),
        decreases counts.len() - i,
    {
        proof {
            lemma_lines_before_mono(counts@, 0, i as int);
        }
        if !saturated {
            if total <= usize::MAX - counts[i] {
                total = total + counts[i];
            } else {
                total = usize::MAX;
                saturated = true;
            }
        }
        i = i + 1;
    }
    proof {
        if saturated {
            lemma_lines_before_mono_ge(counts@, i as int);
        }
    }
    total
}

proof fn lemma_lines_before_mono_ge(counts: Seq<usize>, i: int)
    requires
        0 <= i <= counts.len(),
    ensures
        lines_before(counts, i) <= lines_before(counts, counts.len() as int),
{
    lemma_lines_before_mono(counts, i, counts.len() as int);
}

} // verus!
