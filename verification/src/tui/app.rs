//! State of the terminal UI: the process list, the selection, and per
//! process a ring buffer of recent output ("hot" lines) next to the line
//! counts of its disk logs, from which the visible window is cut.

use vstd::prelude::*;
use std::collections::VecDeque;
use crate::protocol::{ProcessInfo, ProcessState, Stream};
use crate::text::{contains_seq, str_contains};
use crate::keyed::{find_key, key_value, remove_key, set_key, without_key};

pub use crate::disk_log_reader::{LineSource, StreamMode};

verus! {

broadcast use {vstd::string::group_string_axioms, vstd::std_specs::vecdeque::group_vec_dequeue_axioms};

/// Most lines kept in a process's hot buffer.
pub const MAX_BUFFER_LINES: usize = 10000;

/// The stored lines of a buffer as plain values.
pub open spec fn entries_view(s: Seq<(LineSource, String)>) -> Seq<(LineSource, Seq<char>)> {
    Seq::new(s.len(), |i: int| (s[i].0, s[i].1@))
}

/// The texts of the entries that came from `src`, in order.
pub open spec fn lines_from(v: Seq<(LineSource, Seq<char>)>, src: LineSource) -> Seq<Seq<char>>
    decreases v.len(),
{
    if v.len() == 0 {
        seq![]
    } else if v.last().0 == src {
        lines_from(v.drop_last(), src).push(v.last().1)
    } else {
        lines_from(v.drop_last(), src)
    }
}

proof fn lemma_lines_from_drop_first(v: Seq<(LineSource, Seq<char>)>, src: LineSource)
    requires
        v.len() > 0,
    ensures
        lines_from(v.drop_first(), src) == if v[0].0 == src {
            lines_from(v, src).drop_first()
        } else {
            lines_from(v, src)
        },
        v[0].0 == src ==> lines_from(v, src).len() > 0,
    decreases v.len(),
{
    if v.len() == 1 {
        assert(v.drop_first() =~= seq![]);
        assert(v.drop_last() =~= seq![]);
    } else {
        let w = v.drop_last();
        assert(v.drop_first().drop_last() =~= w.drop_first());
        assert(v.drop_first().last() == v.last());
        lemma_lines_from_drop_first(w, src);
        assert(w[0] == v[0]);
        if v[0].0 == src {
            lemma_lines_len(w, src);
            if v.last().0 == src {
                assert(lines_from(v, src).drop_first() =~= lines_from(w, src).drop_first().push(v.last().1));
            }
        }
    }
}

proof fn lemma_lines_len(v: Seq<(LineSource, Seq<char>)>, src: LineSource)
    ensures
        lines_from(v, src).len() <= v.len(),
        v.len() > 0 && v[0].0 == src ==> lines_from(v, src).len() > 0,
    decreases v.len(),
{
    if v.len() > 0 {
        lemma_lines_len(v.drop_last(), src);
        if v.len() > 1 {
            assert(v.drop_last()[0] == v[0]);
        }
    }
}

proof fn lemma_lines_sum(v: Seq<(LineSource, Seq<char>)>)
    ensures
        lines_from(v, LineSource::Stdout).len() + lines_from(v, LineSource::Stderr).len() == v.len(),
    decreases v.len(),
{
    if v.len() > 0 {
        lemma_lines_sum(v.drop_last());
    }
}

/// A ring buffer of the most recent output lines of one process, each
/// tagged with its stream. When full, pushing a line evicts the oldest.
pub struct OutputBuffer {
    lines: VecDeque<(LineSource, String)>,
    max_lines: usize,
    stdout_count: usize,
    stderr_count: usize,
}

impl View for OutputBuffer {
    type V = Seq<(LineSource, Seq<char>)>;

    closed spec fn view(&self) -> Seq<(LineSource, Seq<char>)> {
        entries_view(self.lines@)
    }
}

impl OutputBuffer {
    #[verifier::type_invariant]
    spec fn counts_agree(&self) -> bool {
        &&& self.stdout_count == lines_from(entries_view(self.lines@), LineSource::Stdout).len()
        &&& self.stderr_count == lines_from(entries_view(self.lines@), LineSource::Stderr).len()
        &&& (self.max_lines > 0 ==> self.lines@.len() <= self.max_lines)
    }

    /// The number of lines the buffer keeps before it evicts.
    pub closed spec fn capacity(&self) -> usize {
        self.max_lines
    }

    /// An empty buffer keeping at most `max_lines` lines.
    pub fn new(max_lines: usize) -> (r: OutputBuffer)
        ensures
            r@ == Seq::<(LineSource, Seq<char>)>::empty(),
            r.capacity() == max_lines,
    {
        let b = OutputBuffer {
            lines: VecDeque::new(),
            max_lines,
            stdout_count: 0,
            stderr_count: 0,
        };
        assert(entries_view(b.lines@) =~= seq![]);
        b
    }

    /// Appends a line; when the buffer already holds `capacity` lines (and
    /// the capacity is not 0) the oldest line is dropped first.
    pub fn push(&mut self, source: LineSource, line: String)
        requires
            old(self).capacity() > 0 || old(self)@.len() < usize::MAX,
        ensures
            final(self).capacity() == old(self).capacity(),
            final(self)@ == (if old(self)@.len() == old(self).capacity() && old(self)@.len() > 0 {
                old(self)@.drop_first().push((source, line@))
            } else {
                old(self)@.push((source, line@))
            }),
    {
        let mut tmp = OutputBuffer::new(0);
        std::mem::swap(self, &mut tmp);
        proof {
            use_type_invariant(&tmp);
        }
        let OutputBuffer { mut lines, max_lines, mut stdout_count, mut stderr_count } = tmp;
        let ghost v0 = entries_view(lines@);
        if lines.len() == max_lines {
            if let Some((evicted, _)) = lines.pop_front() {
                proof {
                    assert(entries_view(lines@) =~= v0.drop_first());
                    lemma_lines_from_drop_first(v0, LineSource::Stdout);
                    lemma_lines_from_drop_first(v0, LineSource::Stderr);
                }
                match evicted {
                    LineSource::Stdout => stdout_count = stdout_count - 1,
                    LineSource::Stderr => stderr_count = stderr_count - 1,
                }
            }
        }
        let ghost v1 = entries_view(lines@);
        proof {
            lemma_lines_sum(v1);
            assert(entries_view(lines@.push((source, line))) =~= v1.push((source, line@)));
            assert(v1.push((source, line@)).drop_last() =~= v1);
        }
        match source {
            LineSource::Stdout => stdout_count = stdout_count + 1,
            LineSource::Stderr => stderr_count = stderr_count + 1,
        }
        lines.push_back((source, line));
        *self = OutputBuffer { lines, max_lines, stdout_count, stderr_count };
    }

    /// The number of lines the buffer keeps before it evicts.
    pub fn capacity_exec(&self) -> (r: usize)
        ensures
            r == self.capacity(),
    {
        self.max_lines
    }

    /// Number of stored lines.
    pub fn len(&self) -> (r: usize)
        ensures
            r == self@.len(),
    {
        self.lines.len()
    }

    /// Whether no line is stored.
    pub fn is_empty(&self) -> (r: bool)
        ensures
            r == (self@.len() == 0),
    {
        self.lines.len() == 0
    }

    /// Number of stored stdout lines.
    pub fn stdout_count(&self) -> (r: usize)
        ensures
            r == lines_from(self@, LineSource::Stdout).len(),
    {
        proof {
            use_type_invariant(self);
        }
        self.stdout_count
    }

    /// Number of stored stderr lines.
    pub fn stderr_count(&self) -> (r: usize)
        ensures
            r == lines_from(self@, LineSource::Stderr).len(),
    {
        proof {
            use_type_invariant(self);
        }
        self.stderr_count
    }

    /// The stored lines of one stream, oldest first.
    fn lines_of(&self, src: LineSource) -> (r: Vec<String>)
        ensures
            r.deep_view() == lines_from(self@, src),
    {
        let mut out: Vec<String> = Vec::new();
        let mut i: usize = 0;
        while i < self.lines.len()
            invariant
                i <= self.lines@.len(),
                out.deep_view() == lines_from(entries_view(self.lines@).take(i as int), src),
            decreases self.lines.len() - i,
        {
            let ghost v = entries_view(self.lines@);
            proof {
                assert(v.take(i + 1).drop_last() =~= v.take(i as int));
            }
            let (s, l) = &self.lines[i];
            if *s == src {
                out.push(l.clone());
                assert(out.deep_view() =~= lines_from(v.take(i as int), src).push(l@));
            }
            i = i + 1;
        }
        assert(entries_view(self.lines@).take(self.lines@.len() as int) =~= entries_view(
            self.lines@,
        ));
        out
    }

    /// The stored stdout lines, oldest first.
    pub fn stdout_lines(&self) -> (r: Vec<String>)
        ensures
            r.deep_view() == lines_from(self@, LineSource::Stdout),
    {
        self.lines_of(LineSource::Stdout)
    }

    /// The stored stderr lines, oldest first.
    pub fn stderr_lines(&self) -> (r: Vec<String>)
        ensures
            r.deep_view() == lines_from(self@, LineSource::Stderr),
    {
        self.lines_of(LineSource::Stderr)
    }

    /// All stored lines with their streams, oldest first.
    pub fn all_lines(&self) -> (r: Vec<(LineSource, String)>)
        ensures
            entries_view(r@) == self@,
    {
        let mut out: Vec<(LineSource, String)> = Vec::new();
        let mut i: usize = 0;
        while i < self.lines.len()
            invariant
                i <= self.lines@.len(),
                out@.len() == i,
                entries_view(out@) == entries_view(self.lines@).take(i as int),
            decreases self.lines.len() - i,
        {
            let ghost before = out@;
            let (s, l) = &self.lines[i];
            let copy = l.clone();
            out.push((*s, copy));
            proof {
                assert(out@ == before.push((*s, copy)));
                assert(self.lines@[i as int] == (*s, *l));
                assert(copy@ == l@);
                assert(entries_view(out@)[i as int] == entries_view(self.lines@)[i as int]);
                assert(entries_view(out@) =~= entries_view(self.lines@).take(i + 1));
            }
            i = i + 1;
        }
        assert(entries_view(self.lines@).take(self.lines@.len() as int) =~= entries_view(
            self.lines@,
        ));
        out
    }
}


/// The lines of one stream view of a buffer, each tagged with its stream.
pub open spec fn stream_entries(v: Seq<(LineSource, Seq<char>)>, mode: StreamMode) -> Seq<(LineSource, Seq<char>)> {
    match mode {
        StreamMode::Stdout => lines_from(v, LineSource::Stdout).map_values(|l: Seq<char>| (LineSource::Stdout, l)),
        StreamMode::Stderr => lines_from(v, LineSource::Stderr).map_values(|l: Seq<char>| (LineSource::Stderr, l)),
        StreamMode::Both => v,
    }
}

/// How many of `lines` contain `pat`.
pub open spec fn count_containing(lines: Seq<(LineSource, Seq<char>)>, pat: Seq<char>) -> nat
    decreases lines.len(),
{
    if lines.len() == 0 {
        0
    } else {
        count_containing(lines.drop_last(), pat) + if contains_seq(lines.last().1, pat) { 1nat } else { 0nat }
    }
}

/// `count` lines from position `start` on (fewer where the sequence ends first).
pub open spec fn window_of<A>(s: Seq<A>, start: int, count: int) -> Seq<A> {
    if start >= s.len() {
        Seq::empty()
    } else if start + count >= s.len() {
        s.subrange(start, s.len() as int)
    } else {
        s.subrange(start, start + count)
    }
}

/// The line counts of the disk logs of one process, per stream.
pub struct DiskCounts {
    stdout: usize,
    stderr: usize,
}

impl DiskCounts {
    #[verifier::type_invariant]
    spec fn sum_fits(&self) -> bool {
        self.stdout + self.stderr <= usize::MAX
    }

    /// Lines in the stdout logs.
    pub closed spec fn stdout_lines(&self) -> nat {
        self.stdout as nat
    }

    /// Lines in the stderr logs.
    pub closed spec fn stderr_lines(&self) -> nat {
        self.stderr as nat
    }

    /// Counts whose sum fits a `usize`.
    pub fn new(stdout: usize, stderr: usize) -> (r: DiskCounts)
        requires
            stdout + stderr <= usize::MAX,
        ensures
            r.stdout_lines() == stdout,
            r.stderr_lines() == stderr,
    {
        DiskCounts { stdout, stderr }
    }

    /// The lines a view of the given mode holds.
    pub fn count_for(&self, mode: StreamMode) -> (r: usize)
        ensures
            r == disk_count_for(*self, mode),
    {
        proof {
            use_type_invariant(self);
        }
        match mode {
            StreamMode::Stdout => self.stdout,
            StreamMode::Stderr => self.stderr,
            StreamMode::Both => self.stdout + self.stderr,
        }
    }
}

/// The lines a view of the given mode holds on disk.
pub open spec fn disk_count_for(d: DiskCounts, mode: StreamMode) -> nat {
    match mode {
        StreamMode::Stdout => d.stdout_lines(),
        StreamMode::Stderr => d.stderr_lines(),
        StreamMode::Both => d.stdout_lines() + d.stderr_lines(),
    }
}

/// Cached line numbers of the disk lines that match a filter.
pub struct FilteredIndex {
    pub filter: String,
    pub stream_mode: StreamMode,
    /// Line numbers, in the stream mode's numbering, that match the filter.
    pub matching_lines: Vec<usize>,
    /// How many disk lines have been scanned.
    pub scanned_up_to: usize,
}

/// Whether keys go to the process list or to the filter prompt.
#[derive(Debug, Clone, Copy, PartialEq, Eq, Structural)]
pub enum InputMode {
    Normal,
    FilterInput,
}

/// Where the lines of the visible window come from.
#[derive(Debug, Clone, PartialEq)]
pub enum WindowPlan {
    /// Nothing to show.
    Empty,
    /// `count` lines of the hot buffer's stream view from `start`.
    Hot { start: usize, count: usize },
    /// `count` disk lines from `start`.
    Disk { start: usize, count: usize },
    /// `disk_count` disk lines from `disk_start`, then the first
    /// `hot_count` hot lines.
    Split { disk_start: usize, disk_count: usize, hot_count: usize },
    /// The disk lines with these numbers, in order.
    Scattered { line_numbers: Vec<usize> },
}

/// The whole state of the terminal UI.
pub struct App {
    pub processes: Vec<ProcessInfo>,
    pub selected: usize,
    pub buffers: Vec<(String, OutputBuffer)>,
    pub stream_mode: StreamMode,
    pub paused: bool,
    pub scroll_offsets: Vec<(String, usize)>,
    pub running: bool,
    pub stop_all_on_quit: bool,
    pub input_mode: InputMode,
    /// The filter text being typed.
    pub filter_buf: String,
    /// The filter in force; `None` shows every line.
    pub filter: Option<String>,
    /// Height of the output pane at the last render.
    pub visible_height: usize,
    /// Line counts of the disk logs of each process that has them.
    pub disk_counts: Vec<(String, DiskCounts)>,
    /// Matching disk lines of each process under the current filter.
    pub filtered_indices: Vec<(String, FilteredIndex)>,
    /// Whether the filter is a regular expression (else a substring).
    pub filter_regex: bool,
    /// Whether the filter is a regular expression that does not compile.
    pub filter_regex_error: bool,
}

/// The hot lines of `name` in the app's stream mode, tagged.
pub open spec fn hot_entries(app: &App, name: Seq<char>) -> Seq<(LineSource, Seq<char>)> {
    match key_value(app.buffers@, name) {
        Some(b) => stream_entries(b@, app.stream_mode),
        None => Seq::empty(),
    }
}

/// The number of hot lines of `name` in the app's stream mode.
pub open spec fn hot_count(app: &App, name: Seq<char>) -> nat {
    hot_entries(app, name).len()
}

/// The number of disk lines of `name` in the app's stream mode.
pub open spec fn disk_count(app: &App, name: Seq<char>) -> nat {
    match key_value(app.disk_counts@, name) {
        Some(d) => disk_count_for(d, app.stream_mode),
        None => 0,
    }
}

/// All lines of `name`: the disk logs are authoritative, the hot buffer
/// counts where it is ahead of them.
pub open spec fn total_count(app: &App, name: Seq<char>) -> nat {
    if disk_count(app, name) >= hot_count(app, name) {
        disk_count(app, name)
    } else {
        hot_count(app, name)
    }
}

/// The number of matching disk lines of `name` under the filter.
pub open spec fn filtered_count(app: &App, name: Seq<char>) -> nat {
    match key_value(app.filtered_indices@, name) {
        Some(fi) => fi.matching_lines@.len(),
        None => 0,
    }
}

/// The lines that can be scrolled through for `name`.
pub open spec fn scrollable_count(app: &App, name: Seq<char>) -> nat {
    if app.filter is Some {
        filtered_count(app, name)
    } else {
        total_count(app, name)
    }
}

/// The scroll offset of `name`, counted up from the bottom.
pub open spec fn scroll_offset(app: &App, name: Seq<char>) -> nat {
    match key_value(app.scroll_offsets@, name) {
        Some(o) => o as nat,
        None => 0,
    }
}

/// The name of the selected process.
pub open spec fn selected_process(app: &App) -> Option<Seq<char>> {
    if app.selected < app.processes@.len() {
        Some(app.processes@[app.selected as int].name@)
    } else {
        None
    }
}

/// `a - b`, or 0 where `b` is larger.
pub open spec fn sat_sub(a: int, b: int) -> int {
    if a >= b { a - b } else { 0 }
}

/// The window `[start, end)` of `total` lines that a pane of `height`
/// shows when scrolled `offset` lines up from the bottom.
pub open spec fn window_bounds(total: int, offset: int, height: int) -> (int, int) {
    let end = sat_sub(total, offset);
    (sat_sub(end, height), end)
}

/// The offset the window of `name` is drawn at: its scroll offset while
/// paused, else the bottom.
pub open spec fn effective_offset(app: &App, name: Seq<char>) -> nat {
    if app.paused { scroll_offset(app, name) } else { 0 }
}

/// The matching line numbers that the filtered window of `name` shows.
pub open spec fn scattered_lines(app: &App, name: Seq<char>, height: int) -> Seq<usize> {
    let (start, end) = window_bounds(filtered_count(app, name) as int, effective_offset(app, name) as int, height);
    match key_value(app.filtered_indices@, name) {
        Some(fi) => fi.matching_lines@.subrange(start, end),
        None => Seq::empty(),
    }
}

/// Whether the visible window of `name` takes lines from disk.
pub open spec fn needs_disk(app: &App, name: Seq<char>, height: int) -> bool {
    if app.filter is Some {
        let (start, end) = window_bounds(filtered_count(app, name) as int, effective_offset(app, name) as int, height);
        !(end - start == 0 || key_value(app.disk_counts@, name) is None)
    } else {
        let (start, end) = window_bounds(total_count(app, name) as int, effective_offset(app, name) as int, height);
        end - start != 0 && start < sat_sub(disk_count(app, name) as int, hot_count(app, name) as int)
    }
}

/// The visible window of `name` where it takes no line from disk.
pub open spec fn in_memory_window(app: &App, name: Seq<char>, height: int) -> Seq<(LineSource, Seq<char>)> {
    if app.filter is Some {
        Seq::empty()
    } else {
        let (start, end) = window_bounds(total_count(app, name) as int, effective_offset(app, name) as int, height);
        let boundary = sat_sub(disk_count(app, name) as int, hot_count(app, name) as int);
        if end - start == 0 {
            Seq::empty()
        } else {
            window_of(hot_entries(app, name), start - boundary, end - start)
        }
    }
}

/// Whether `p` says where the visible window of `name`, in a pane of
/// `height` lines, comes from.
pub open spec fn is_plan(app: &App, name: Seq<char>, height: int, p: WindowPlan) -> bool {
    if app.filter is Some {
        let (start, end) = window_bounds(filtered_count(app, name) as int, effective_offset(app, name) as int, height);
        if end - start == 0 || key_value(app.disk_counts@, name) is None {
            p == WindowPlan::Empty
        } else {
            p matches WindowPlan::Scattered { line_numbers } && line_numbers@ == scattered_lines(app, name, height)
        }
    } else {
        let (start, end) = window_bounds(total_count(app, name) as int, effective_offset(app, name) as int, height);
        let boundary = sat_sub(disk_count(app, name) as int, hot_count(app, name) as int);
        if end - start == 0 {
            p == WindowPlan::Empty
        } else if start >= boundary {
            p == WindowPlan::Hot { start: (start - boundary) as usize, count: (end - start) as usize }
        } else if end <= boundary {
            p == WindowPlan::Disk { start: start as usize, count: (end - start) as usize }
        } else {
            p == WindowPlan::Split {
                disk_start: start as usize,
                disk_count: (boundary - start) as usize,
                hot_count: (end - boundary) as usize,
            }
        }
    }
}

/// How many processes are in the given state.
pub open spec fn count_in_state(ps: Seq<ProcessInfo>, st: ProcessState) -> nat
    decreases ps.len(),
{
    if ps.len() == 0 {
        0
    } else {
        count_in_state(ps.drop_last(), st) + if ps.last().state == st { 1nat } else { 0nat }
    }
}

/// The selection moved down, wrapping at the end (see [`App::select_next`]).
pub open spec fn selects_next(a: &App, b: &App) -> bool {
    &&& b.selected == next_index(a.selected as int, a.processes@.len() as int)
    &&& b.processes == a.processes
}

/// The selection moved up, wrapping at the start.
pub open spec fn selects_prev(a: &App, b: &App) -> bool {
    &&& b.selected == prev_index(a.selected as int, a.processes@.len() as int)
    &&& b.processes == a.processes
}

/// The next stream view is shown; `rescan` names the processes to scan
/// again for the filter in force (every one with disk logs, or none
/// without a filter).
pub open spec fn cycles_stream(a: &App, b: &App, rescan: Seq<Seq<char>>) -> bool {
    &&& b.stream_mode == next_stream_mode(a.stream_mode)
    &&& b.filter == a.filter
    &&& b.disk_counts == a.disk_counts
    &&& rescan == (if a.filter is Some {
        a.disk_counts@.map_values(|e: (String, DiskCounts)| e.0@)
    } else {
        Seq::empty()
    })
}

/// The process list, the selection, the buffers, the stream view, the
/// pane height, the disk counts and the run flags are unchanged.
pub open spec fn view_kept(a: &App, b: &App) -> bool {
    &&& b.processes == a.processes
    &&& b.selected == a.selected
    &&& b.buffers == a.buffers
    &&& b.stream_mode == a.stream_mode
    &&& b.running == a.running
    &&& b.stop_all_on_quit == a.stop_all_on_quit
    &&& b.visible_height == a.visible_height
    &&& b.disk_counts == a.disk_counts
}

/// The input mode, the filter prompt's text, the filter, its indexes and
/// its regex flags are unchanged.
pub open spec fn filter_kept(a: &App, b: &App) -> bool {
    &&& b.input_mode == a.input_mode
    &&& b.filter_buf == a.filter_buf
    &&& b.filter == a.filter
    &&& b.filtered_indices == a.filtered_indices
    &&& b.filter_regex == a.filter_regex
    &&& b.filter_regex_error == a.filter_regex_error
}

/// Whether following is paused, and the scroll offsets, are unchanged.
pub open spec fn scroll_kept(a: &App, b: &App) -> bool {
    &&& b.paused == a.paused
    &&& b.scroll_offsets == a.scroll_offsets
}

/// Following is paused or resumed; resuming forgets the selected
/// process's scroll offset.
pub open spec fn toggles_pause(a: &App, b: &App) -> bool {
    &&& b.paused == !a.paused
    &&& b.scroll_offsets@ == (match selected_process(a) {
        Some(n) if a.paused => without_key(a.scroll_offsets@, n),
        _ => a.scroll_offsets@,
    })
    &&& view_kept(a, b)
    &&& filter_kept(a, b)
}

/// Half the output pane, at least one line: what a page key scrolls.
pub open spec fn half_page(a: &App) -> int {
    if a.visible_height / 2 >= 1 { (a.visible_height / 2) as int } else { 1 }
}

/// Paused, with the selected process scrolled up by `lines` (at most to
/// its first line).
pub open spec fn scrolls_up(a: &App, b: &App, lines: int) -> bool {
    &&& b.paused
    &&& match selected_process(a) {
        Some(n) => {
            let cur = scroll_offset(a, n);
            let max = sat_sub(scrollable_count(a, n) as int, a.visible_height as int);
            let up = if cur + lines > usize::MAX { usize::MAX as int } else { cur + lines };
            &&& key_value(b.scroll_offsets@, n) == Some((if up < max { up } else { max }) as usize)
            &&& other_offsets_kept(a, b, n)
        },
        None => b.scroll_offsets == a.scroll_offsets,
    }
    &&& view_kept(a, b)
    &&& filter_kept(a, b)
}

/// The selected process scrolled down by `lines`; following resumes at
/// the bottom.
pub open spec fn scrolls_down(a: &App, b: &App, lines: int) -> bool {
    &&& match selected_process(a) {
        Some(n) => {
            let o = sat_sub(scroll_offset(a, n) as int, lines);
            &&& key_value(b.scroll_offsets@, n) == Some(o as usize)
            &&& other_offsets_kept(a, b, n)
            &&& b.paused == (a.paused && o != 0)
        },
        None => b.scroll_offsets == a.scroll_offsets && b.paused == a.paused,
    }
    &&& view_kept(a, b)
    &&& filter_kept(a, b)
}

/// Paused, with the selected process scrolled as far up as the pane
/// allows: its first line at the top of the pane.
pub open spec fn scrolls_to_top(a: &App, b: &App) -> bool {
    &&& b.paused
    &&& match selected_process(a) {
        Some(n) => {
            &&& key_value(b.scroll_offsets@, n) == Some(sat_sub(scrollable_count(a, n) as int, a.visible_height as int) as usize)
            &&& other_offsets_kept(a, b, n)
        },
        None => b.scroll_offsets == a.scroll_offsets,
    }
    &&& view_kept(a, b)
    &&& filter_kept(a, b)
}

/// The scroll offsets of every process but `n` are unchanged.
pub open spec fn other_offsets_kept(a: &App, b: &App, n: Seq<char>) -> bool {
    forall|m: Seq<char>| m != n ==> #[trigger] key_value(b.scroll_offsets@, m) == key_value(a.scroll_offsets@, m)
}

/// Following the selected process again, at its last line.
pub open spec fn scrolls_to_bottom(a: &App, b: &App) -> bool {
    &&& match selected_process(a) {
        Some(n) => {
            &&& b.scroll_offsets@ == without_key(a.scroll_offsets@, n)
            &&& !b.paused
        },
        None => b.scroll_offsets == a.scroll_offsets && b.paused == a.paused,
    }
    &&& view_kept(a, b)
    &&& filter_kept(a, b)
}

/// The filter prompt opens with the filter in force as its text.
pub open spec fn starts_filter(a: &App, b: &App) -> bool {
    &&& b.input_mode == InputMode::FilterInput
    &&& b.filter_buf@ == (match a.filter {
        Some(f) => f@,
        None => Seq::<char>::empty(),
    })
    &&& b.filter == a.filter
    &&& b.filtered_indices == a.filtered_indices
    &&& b.filter_regex == a.filter_regex
    &&& b.filter_regex_error == a.filter_regex_error
    &&& view_kept(a, b)
    &&& scroll_kept(a, b)
}

/// The prompt closes and its text becomes the filter (none for an empty
/// text, which drops the indexes); `rescan` names the processes with disk
/// logs to scan for a new filter.
pub open spec fn confirms_filter(a: &App, b: &App, rescan: Seq<Seq<char>>) -> bool {
    &&& b.input_mode == InputMode::Normal
    &&& a.filter_buf@.len() == 0 ==> {
        &&& b.filter is None
        &&& b.filtered_indices@.len() == 0
        &&& rescan.len() == 0
    }
    &&& a.filter_buf@.len() > 0 ==> {
        &&& b.filter matches Some(f) && f@ == a.filter_buf@
        &&& b.filtered_indices == a.filtered_indices
        &&& rescan == a.disk_counts@.map_values(|e: (String, DiskCounts)| e.0@)
    }
    &&& b.filter_buf == a.filter_buf
    &&& b.filter_regex == a.filter_regex
    &&& b.filter_regex_error == a.filter_regex_error
    &&& view_kept(a, b)
    &&& scroll_kept(a, b)
}

/// The prompt closes, its text dropped, the filter in force kept.
pub open spec fn cancels_filter(a: &App, b: &App) -> bool {
    &&& b.input_mode == InputMode::Normal
    &&& b.filter_buf@.len() == 0
    &&& b.filter == a.filter
    &&& b.filtered_indices == a.filtered_indices
    &&& b.filter_regex == a.filter_regex
    &&& b.filter_regex_error == a.filter_regex_error
    &&& view_kept(a, b)
    &&& scroll_kept(a, b)
}

/// No filter is in force any more; nothing else changes.
pub open spec fn clears_filter(a: &App, b: &App) -> bool {
    &&& b.filter is None
    &&& b.filter_buf@.len() == 0
    &&& b.filtered_indices@.len() == 0
    &&& !b.filter_regex
    &&& !b.filter_regex_error
    &&& b.input_mode == a.input_mode
    &&& b.processes == a.processes
    &&& b.selected == a.selected
    &&& b.buffers == a.buffers
    &&& b.stream_mode == a.stream_mode
    &&& b.paused == a.paused
    &&& b.scroll_offsets == a.scroll_offsets
    &&& b.running == a.running
    &&& b.stop_all_on_quit == a.stop_all_on_quit
    &&& b.visible_height == a.visible_height
    &&& b.disk_counts == a.disk_counts
}

/// The UI stops, leaving the processes running.
pub open spec fn quits(a: &App, b: &App) -> bool {
    !b.running && b.stop_all_on_quit == a.stop_all_on_quit
}

/// The UI stops and asks for every process to be stopped.
pub open spec fn quits_and_stops(a: &App, b: &App) -> bool {
    !b.running && b.stop_all_on_quit
}


impl App {
    /// A fresh UI: no processes, stdout shown, live (not paused), no filter,
    /// a pane of 20 lines.
    pub fn new() -> (r: App)
        ensures
            r.processes@.len() == 0,
            r.selected == 0,
            r.buffers@.len() == 0,
            r.stream_mode == StreamMode::Stdout,
            !r.paused,
            r.scroll_offsets@.len() == 0,
            r.running,
            !r.stop_all_on_quit,
            r.input_mode == InputMode::Normal,
            r.filter_buf@.len() == 0,
            r.filter is None,
            r.visible_height == 20,
            r.disk_counts@.len() == 0,
            r.filtered_indices@.len() == 0,
            !r.filter_regex,
            !r.filter_regex_error,
    {
        App {
            processes: Vec::new(),
            selected: 0,
            buffers: Vec::new(),
            stream_mode: StreamMode::Stdout,
            paused: false,
            scroll_offsets: Vec::new(),
            running: true,
            stop_all_on_quit: false,
            input_mode: InputMode::Normal,
            filter_buf: String::new(),
            filter: None,
            visible_height: 20,
            disk_counts: Vec::new(),
            filtered_indices: Vec::new(),
            filter_regex: false,
            filter_regex_error: false,
        }
    }

    /// Replaces the process list; a selection past its end moves to the
    /// last process (an empty list leaves it alone).
    pub fn update_processes(&mut self, processes: Vec<ProcessInfo>)
        ensures
            final(self).processes == processes,
            final(self).selected == (if old(self).selected >= processes@.len() && processes@.len() > 0 {
                (processes@.len() - 1) as usize
            } else {
                old(self).selected
            }),
            final(self).buffers == old(self).buffers,
            final(self).scroll_offsets == old(self).scroll_offsets,
            final(self).paused == old(self).paused,
            final(self).stream_mode == old(self).stream_mode,
            final(self).running == old(self).running,
            final(self).stop_all_on_quit == old(self).stop_all_on_quit,
            final(self).input_mode == old(self).input_mode,
            final(self).filter_buf == old(self).filter_buf,
            final(self).filter == old(self).filter,
            final(self).visible_height == old(self).visible_height,
            final(self).disk_counts == old(self).disk_counts,
            final(self).filtered_indices == old(self).filtered_indices,
            final(self).filter_regex == old(self).filter_regex,
            final(self).filter_regex_error == old(self).filter_regex_error,
    {
        self.processes = processes;
        if self.selected >= self.processes.len() && self.processes.len() > 0 {
            self.selected = self.processes.len() - 1;
        }
    }

    /// The name of the selected process.
    pub fn selected_name(&self) -> (r: Option<&str>)
        ensures
            match r {
                Some(n) => selected_process(self) == Some(n@),
                None => selected_process(self) is None,
            },
    {
        if self.selected < self.processes.len() {
            Some(self.processes[self.selected].name.as_str())
        } else {
            None
        }
    }

    /// Moves the selection down, from the last process to the first.
    pub fn select_next(&mut self)
        requires
            old(self).processes@.len() > 0 ==> old(self).selected < usize::MAX,
        ensures
            selects_next(old(self), final(self)),
    {
        if self.processes.len() > 0 {
            self.selected = (self.selected + 1) % self.processes.len();
        }
    }

    /// Moves the selection up, from the first process to the last.
    pub fn select_prev(&mut self)
        ensures
            selects_prev(old(self), final(self)),
    {
        if self.processes.len() > 0 {
            self.selected = if self.selected == 0 {
                self.processes.len() - 1
            } else {
                self.selected - 1
            };
        }
    }

    /// Shows the next stream view: stdout, then stderr, then both. Where a
    /// filter is in force the matching lines are numbered anew in the new
    /// view; the names whose disk logs must be scanned again are returned.
    pub fn cycle_stream_mode(&mut self) -> (r: Vec<String>)
        ensures
            cycles_stream(old(self), final(self), r.deep_view()),
    {
        self.stream_mode = match self.stream_mode {
            StreamMode::Stdout => StreamMode::Stderr,
            StreamMode::Stderr => StreamMode::Both,
            StreamMode::Both => StreamMode::Stdout,
        };
        if self.filter.is_some() {
            let names = self.disk_names();
            assert(names.deep_view() =~= self.disk_counts@.map_values(|e: (String, DiskCounts)| e.0@));
            names
        } else {
            let none: Vec<String> = Vec::new();
            assert(none.deep_view() =~= Seq::<Seq<char>>::empty());
            none
        }
    }

    /// The names of the processes with disk logs, in order.
    fn disk_names(&self) -> (r: Vec<String>)
        ensures
            r.deep_view() == self.disk_counts@.map_values(|e: (String, DiskCounts)| e.0@),
    {
        let mut out: Vec<String> = Vec::new();
        let mut i: usize = 0;
        while i < self.disk_counts.len()
            invariant
                i <= self.disk_counts@.len(),
                out.deep_view() == self.disk_counts@.take(i as int).map_values(|e: (String, DiskCounts)| e.0@),
            decreases self.disk_counts.len() - i,
        {
            let ghost before = out.deep_view();
            let n = self.disk_counts[i].0.clone();
            out.push(n);
            proof {
                assert(n@ == self.disk_counts@[i as int].0@);
                assert(out.deep_view() =~= before.push(n@));
                assert(self.disk_counts@.take(i + 1) =~= self.disk_counts@.take(i as int).push(self.disk_counts@[i as int]));
                assert(out.deep_view() =~= self.disk_counts@.take(i + 1).map_values(|e: (String, DiskCounts)| e.0@));
            }
            i = i + 1;
        }
        assert(self.disk_counts@.take(self.disk_counts@.len() as int) =~= self.disk_counts@);
        out
    }

    /// Pauses or resumes; resuming drops the selected process's scroll
    /// offset, so it follows the newest lines again.
    pub fn toggle_pause(&mut self)
        ensures
            toggles_pause(old(self), final(self)),
    {
        self.paused = !self.paused;
        if !self.paused {
            if self.selected < self.processes.len() {
                let name = self.processes[self.selected].name.clone();
                remove_key(&mut self.scroll_offsets, name.as_str());
            }
        }
    }

    /// Scrolls the selected process up by `lines`, pausing; the offset
    /// stops where the top line reaches the top of the pane.
    pub fn scroll_up_by(&mut self, lines: usize)
        ensures
            scrolls_up(old(self), final(self), lines as int),
    {
        self.paused = true;
        if self.selected < self.processes.len() {
            let name = self.processes[self.selected].name.clone();
            let max_offset = self.line_count_for(name.as_str()).saturating_sub(self.visible_height);
            let cur = self.offset_of(name.as_str());
            let up = cur.saturating_add(lines);
            let v = if up < max_offset { up } else { max_offset };
            set_key(&mut self.scroll_offsets, name.as_str(), v);
        }
    }

    /// Half a pane, at least one line.
    fn half_page(&self) -> (r: usize)
        ensures
            r == (if self.visible_height / 2 >= 1 { self.visible_height / 2 } else { 1 }),
    {
        let h = self.visible_height / 2;
        if h >= 1 { h } else { 1 }
    }

    /// Scrolls up by half a pane.
    pub fn scroll_up(&mut self)
        ensures
            scrolls_up(old(self), final(self), half_page(old(self))),
    {
        let h = self.half_page();
        self.scroll_up_by(h);
    }

    /// Scrolls the selected process down by `lines`; reaching the bottom
    /// resumes following.
    pub fn scroll_down_by(&mut self, lines: usize)
        ensures
            scrolls_down(old(self), final(self), lines as int),
    {
        if self.selected < self.processes.len() {
            let name = self.processes[self.selected].name.clone();
            let cur = self.offset_of(name.as_str());
            let v = cur.saturating_sub(lines);
            set_key(&mut self.scroll_offsets, name.as_str(), v);
            if v == 0 {
                self.paused = false;
            }
        }
    }

    /// Scrolls down by half a pane.
    pub fn scroll_down(&mut self)
        ensures
            scrolls_down(old(self), final(self), half_page(old(self))),
    {
        let h = self.half_page();
        self.scroll_down_by(h);
    }

    /// Pauses and scrolls the selected process up until its first line
    /// is at the top of the pane.
    pub fn scroll_to_top(&mut self)
        ensures
            scrolls_to_top(old(self), final(self)),
    {
        self.paused = true;
        if self.selected < self.processes.len() {
            let name = self.processes[self.selected].name.clone();
            let top = self.line_count_for(name.as_str()).saturating_sub(self.visible_height);
            set_key(&mut self.scroll_offsets, name.as_str(), top);
        }
    }

    /// Returns the selected process to its newest lines and resumes.
    pub fn scroll_to_bottom(&mut self)
        ensures
            scrolls_to_bottom(old(self), final(self)),
    {
        if self.selected < self.processes.len() {
            let name = self.processes[self.selected].name.clone();
            remove_key(&mut self.scroll_offsets, name.as_str());
            self.paused = false;
        }
    }

    /// The number of matching disk lines of `name` under the filter.
    fn filtered_len(&self, name: &str) -> (r: usize)
        ensures
            r == filtered_count(self, name@),
    {
        match find_key(&self.filtered_indices, name) {
            Some(i) => self.filtered_indices[i].1.matching_lines.len(),
            None => 0,
        }
    }

    /// The scroll offset of `name` (0 when it has none).
    fn offset_of(&self, name: &str) -> (r: usize)
        ensures
            r == scroll_offset(self, name@),
    {
        match find_key(&self.scroll_offsets, name) {
            Some(i) => self.scroll_offsets[i].1,
            None => 0,
        }
    }

    /// The lines that can be scrolled through for `name`: the matching
    /// lines under a filter, else all lines.
    pub fn line_count_for(&self, name: &str) -> (r: usize)
        ensures
            r == scrollable_count(self, name@),
    {
        if self.filter.is_some() {
            match find_key(&self.filtered_indices, name) {
                Some(i) => self.filtered_indices[i].1.matching_lines.len(),
                None => 0,
            }
        } else {
            self.total_line_count(name)
        }
    }

    /// All lines of `name` in the current stream view: the disk count, or
    /// the hot count where the hot buffer is ahead of the disk (right after
    /// a restart, before the disk catches up).
    pub fn total_line_count(&self, name: &str) -> (r: usize)
        ensures
            r == total_count(self, name@),
    {
        let hot = self.hot_line_count(name, None);
        let disk = self.disk_line_count(name);
        if disk >= hot { disk } else { hot }
    }

    /// Disk lines of `name` in the current stream view.
    pub fn disk_line_count(&self, name: &str) -> (r: usize)
        ensures
            r == disk_count(self, name@),
    {
        match find_key(&self.disk_counts, name) {
            Some(i) => self.disk_counts[i].1.count_for(self.stream_mode),
            None => 0,
        }
    }

    /// Hot lines of `name` in the current stream view; with a pattern,
    /// only those that contain it.
    pub fn hot_line_count(&self, name: &str, filter: Option<&str>) -> (r: usize)
        ensures
            r == (match filter {
                Some(pat) => count_containing(hot_entries(self, name@), pat@),
                None => hot_count(self, name@),
            }),
    {
        match find_key(&self.buffers, name) {
            None => 0,
            Some(i) => {
                let buf = &self.buffers[i].1;
                match filter {
                    Some(pat) => {
                        let entries = stream_view_lines(buf, self.stream_mode);
                        count_lines_containing(&entries, pat)
                    },
                    None => {
                        proof {
                            lemma_stream_entries_len(buf@, self.stream_mode);
                        }
                        match self.stream_mode {
                            StreamMode::Stdout => buf.stdout_count(),
                            StreamMode::Stderr => buf.stderr_count(),
                            StreamMode::Both => buf.len(),
                        }
                    },
                }
            },
        }
    }
}

impl App {
    /// Where the visible window of `name` comes from, for a pane of
    /// `visible_height` lines: under a filter, the matching disk lines;
    /// else the newest lines (or, while paused, the lines at the scroll
    /// offset), split where the disk lines give way to the hot buffer.
    pub fn visible_plan(&self, name: &str, visible_height: usize) -> (r: WindowPlan)
        ensures
            is_plan(self, name@, visible_height as int, r),
            disk_count(self, name@) <= usize::MAX,
            hot_count(self, name@) <= usize::MAX,
            filtered_count(self, name@) <= usize::MAX,
    {
        let disk = self.disk_line_count(name);
        let hot_len = self.hot_line_count(name, None);
        let filtered = self.filtered_len(name);
        let offset = if self.paused { self.offset_of(name) } else { 0 };
        if self.filter.is_some() {
            let fi = find_key(&self.filtered_indices, name);
            let window_end = filtered.saturating_sub(offset);
            let window_start = window_end.saturating_sub(visible_height);
            if window_end - window_start == 0 {
                return WindowPlan::Empty;
            }
            if find_key(&self.disk_counts, name).is_none() {
                return WindowPlan::Empty;
            }
            match fi {
                Some(i) => {
                    let m = &self.filtered_indices[i].1.matching_lines;
                    let mut line_numbers: Vec<usize> = Vec::new();
                    let mut j = window_start;
                    while j < window_end
                        invariant
                            window_start <= j <= window_end,
                            window_end <= m@.len(),
                            line_numbers@ == m@.subrange(window_start as int, j as int),
                        decreases window_end - j,
                    {
                        line_numbers.push(m[j]);
                        assert(m@.subrange(window_start as int, j + 1) =~= m@.subrange(window_start as int, j as int).push(m@[j as int]));
                        j = j + 1;
                    }
                    WindowPlan::Scattered { line_numbers }
                },
                None => WindowPlan::Empty,
            }
        } else {
            let total = if disk >= hot_len { disk } else { hot_len };
            let window_end = total.saturating_sub(offset);
            let window_start = window_end.saturating_sub(visible_height);
            let count = window_end - window_start;
            if count == 0 {
                return WindowPlan::Empty;
            }
            let boundary = disk.saturating_sub(hot_len);
            if window_start >= boundary {
                WindowPlan::Hot { start: window_start - boundary, count }
            } else if window_end <= boundary {
                WindowPlan::Disk { start: window_start, count }
            } else {
                WindowPlan::Split {
                    disk_start: window_start,
                    disk_count: boundary - window_start,
                    hot_count: window_end - boundary,
                }
            }
        }
    }

    /// The visible window of `name` where it needs no disk read: `Some`
    /// with the lines when the window is empty or lies in the hot buffer;
    /// `None` when disk lines are needed (see [`App::visible_plan`]).
    pub fn visible_lines(&self, name: &str, visible_height: usize) -> (r: Option<Vec<(LineSource, String)>>)
        ensures
            r is Some <==> !needs_disk(self, name@, visible_height as int),
            r matches Some(lines) ==> entries_view(lines@) == in_memory_window(self, name@, visible_height as int),
    {
        let plan = self.visible_plan(name, visible_height);
        match plan {
            WindowPlan::Empty => {
                let v: Vec<(LineSource, String)> = Vec::new();
                assert(entries_view(v@) =~= Seq::empty());
                assert(in_memory_window(self, name@, visible_height as int) =~= Seq::empty());
                Some(v)
            },
            WindowPlan::Hot { start, count } => {
                let lines = self.hot_buffer_range(name, start, count);
                Some(lines)
            },
            _ => None,
        }
    }

    /// `count` lines of the hot buffer's stream view of `name`, from
    /// position `start`.
    pub fn hot_buffer_range(&self, name: &str, start: usize, count: usize) -> (r: Vec<(LineSource, String)>)
        ensures
            entries_view(r@) == window_of(hot_entries(self, name@), start as int, count as int),
    {
        match find_key(&self.buffers, name) {
            None => {
                assert(entries_view(Seq::<(LineSource, String)>::empty()) =~= Seq::empty());
                Vec::new()
            },
            Some(i) => {
                let entries = stream_view_lines(&self.buffers[i].1, self.stream_mode);
                let ghost ev = entries_view(entries@);
                let from = if start >= entries.len() { entries.len() } else { start };
                let end = if start >= entries.len() {
                    entries.len()
                } else if count >= entries.len() - start {
                    entries.len()
                } else {
                    start + count
                };
                let mut out: Vec<(LineSource, String)> = Vec::new();
                let mut j = from;
                assert(entries_view(out@) =~= ev.subrange(from as int, from as int));
                while j < end
                    invariant
                        from <= j <= end,
                        end <= entries@.len(),
                        ev == entries_view(entries@),
                        ev.len() == entries@.len(),
                        out@.len() == j - from,
                        entries_view(out@) == ev.subrange(from as int, j as int),
                    decreases end - j,
                {
                    let ghost before = out@;
                    let (src, l) = &entries[j];
                    let copy = l.clone();
                    out.push((*src, copy));
                    proof {
                        assert(entries@[j as int] == (*src, *l));
                        assert(entries_view(out@) =~= entries_view(before).push((*src, copy@)));
                        assert(ev.subrange(from as int, j + 1) =~= ev.subrange(from as int, j as int).push(ev[j as int]));
                    }
                    j = j + 1;
                }
                assert(entries_view(out@) =~= window_of(ev, start as int, count as int));
                out
            },
        }
    }

    /// The window of a [`WindowPlan::Split`]: the disk lines read for it,
    /// then the first `hot_count` hot lines of `name`.
    pub fn window_with_disk(&self, name: &str, disk_lines: Vec<(LineSource, String)>, hot_count: usize) -> (r: Vec<(LineSource, String)>)
        ensures
            entries_view(r@) == entries_view(disk_lines@) + window_of(hot_entries(self, name@), 0, hot_count as int),
    {
        let mut lines = disk_lines;
        let mut hot = self.hot_buffer_range(name, 0, hot_count);
        let ghost a = lines@;
        let ghost b = hot@;
        lines.append(&mut hot);
        assert(entries_view(lines@) =~= entries_view(a) + entries_view(b));
        lines
    }

    /// Opens the filter prompt with the current filter as its text.
    pub fn start_filter(&mut self)
        ensures
            starts_filter(old(self), final(self)),
    {
        self.input_mode = InputMode::FilterInput;
        self.filter_buf = match &self.filter {
            Some(f) => f.clone(),
            None => String::new(),
        };
    }

    /// Closes the prompt and applies its text: an empty text removes the
    /// filter and its indexes; else the text becomes the filter, and the
    /// names whose disk logs must be scanned for it are returned.
    pub fn confirm_filter(&mut self) -> (r: Vec<String>)
        ensures
            confirms_filter(old(self), final(self), r.deep_view()),
    {
        self.input_mode = InputMode::Normal;
        if self.filter_buf.as_str().is_empty() {
            self.filter = None;
            self.filtered_indices = Vec::new();
            Vec::new()
        } else {
            self.filter = Some(self.filter_buf.clone());
            self.disk_names()
        }
    }

    /// Closes the prompt without changing the filter.
    pub fn cancel_filter(&mut self)
        ensures
            cancels_filter(old(self), final(self)),
    {
        self.input_mode = InputMode::Normal;
        self.filter_buf = String::new();
    }

    /// Removes the filter, its text, its indexes and its regex flags.
    pub fn clear_filter(&mut self)
        ensures
            clears_filter(old(self), final(self)),
    {
        self.filter = None;
        self.filter_buf = String::new();
        self.filtered_indices = Vec::new();
        self.filter_regex = false;
        self.filter_regex_error = false;
    }

    /// Appends a line to the hot buffer of `process`, making the buffer
    /// (of the default size) on its first line. Returns whether a filter is
    /// in force, in which case the new disk lines of `process` are to be
    /// scanned (see [`App::extend_filtered_index`]).
    pub fn push_output(&mut self, process: &str, stream: Stream, line: &str) -> (r: bool)
        ensures
            r == old(self).filter is Some,
            final(self).filter == old(self).filter,
            match key_value(old(self).buffers@, process@) {
                Some(b) => key_value(final(self).buffers@, process@) matches Some(nb)
                    && (b.capacity() == 0 && b@.len() == usize::MAX ==> nb@ == b@)
                    && (b.capacity() > 0 || b@.len() < usize::MAX ==> nb@ == pushed(b@, b.capacity(), line_source(stream), line@)),
                None => key_value(final(self).buffers@, process@) matches Some(nb)
                    && nb@ == seq![(line_source(stream), line@)]
                    && nb.capacity() == MAX_BUFFER_LINES,
            },
            forall|m: Seq<char>| m != process@ ==> #[trigger] key_value(final(self).buffers@, m) == key_value(old(self).buffers@, m),
    {
        let source = match stream {
            Stream::Stdout => LineSource::Stdout,
            Stream::Stderr => LineSource::Stderr,
        };
        let text = line.to_string();
        match find_key(&self.buffers, process) {
            Some(i) => {
                let ghost old_b = self.buffers@;
                let (n, mut b) = self.buffers.remove(i);
                if b.capacity_exec() > 0 || b.len() < usize::MAX {
                    b.push(source, text);
                }
                self.buffers.insert(i, (n, b));
                proof {
                    assert(self.buffers@ =~= old_b.update(i as int, (n, b)));
                    assert(self.buffers@[i as int].0@ == process@);
                    assert forall|j: int| 0 <= j < i implies self.buffers@[j].0@ != process@ by {
                        assert(self.buffers@[j] == old_b[j]);
                    }
                    crate::keyed::lemma_key_pos(old_b, process@);
                    crate::keyed::lemma_key_pos(self.buffers@, process@);
                    crate::keyed::lemma_other_keys_kept(old_b, self.buffers@, process@);
                }
            },
            None => {
                let mut b = OutputBuffer::new(MAX_BUFFER_LINES);
                b.push(source, text);
                assert(b@ =~= seq![(source, line@)]);
                set_key(&mut self.buffers, process, b);
            },
        }
        self.filter.is_some()
    }

    /// Records the matching disk lines of `name` under the current filter,
    /// scanned up to line `scanned_up_to`; a filter that is a valid regex
    /// (or a substring) clears the regex error flag.
    pub fn install_filtered_index(&mut self, name: &str, matching_lines: Vec<usize>, scanned_up_to: usize)
        requires
            old(self).filter is Some,
        ensures
            key_value(final(self).filtered_indices@, name@) matches Some(fi)
                && fi.matching_lines == matching_lines
                && fi.scanned_up_to == scanned_up_to
                && fi.stream_mode == old(self).stream_mode
                && Some(fi.filter) == old(self).filter,
            !final(self).filter_regex_error,
    {
        let filter = match &self.filter {
            Some(f) => f.clone(),
            None => String::new(),
        };
        self.filter_regex_error = false;
        let fi = FilteredIndex { filter, stream_mode: self.stream_mode, matching_lines, scanned_up_to };
        set_key(&mut self.filtered_indices, name, fi);
    }

    /// Marks the filter as a regex that does not compile, dropping the
    /// index of `name`.
    pub fn reject_filter_regex(&mut self, name: &str)
        ensures
            final(self).filter_regex_error,
            final(self).filtered_indices@ == without_key(old(self).filtered_indices@, name@),
    {
        self.filter_regex_error = true;
        remove_key(&mut self.filtered_indices, name);
    }

    /// Appends the matches found among the disk lines of `name` scanned
    /// since the last scan, which now reaches `current_total`. Nothing
    /// changes where `name` has no index or nothing new was scanned.
    pub fn extend_filtered_index(&mut self, name: &str, new_matches: Vec<usize>, current_total: usize)
        ensures
            match key_value(old(self).filtered_indices@, name@) {
                Some(fi) if current_total > fi.scanned_up_to => key_value(final(self).filtered_indices@, name@) matches Some(nfi)
                    && nfi.matching_lines@ == fi.matching_lines@ + new_matches@
                    && nfi.scanned_up_to == current_total
                    && nfi.filter == fi.filter
                    && nfi.stream_mode == fi.stream_mode,
                _ => final(self).filtered_indices == old(self).filtered_indices,
            },
    {
        if let Some(i) = find_key(&self.filtered_indices, name) {
            if current_total > self.filtered_indices[i].1.scanned_up_to {
                let ghost old_v = self.filtered_indices@;
                let (n, mut fi) = self.filtered_indices.remove(i);
                let mut extra = new_matches;
                fi.matching_lines.append(&mut extra);
                fi.scanned_up_to = current_total;
                self.filtered_indices.insert(i, (n, fi));
                proof {
                    assert(self.filtered_indices@ =~= old_v.update(i as int, (n, fi)));
                    assert forall|j: int| 0 <= j < i implies self.filtered_indices@[j].0@ != name@ by {
                        assert(self.filtered_indices@[j] == old_v[j]);
                    }
                    crate::keyed::lemma_key_pos(old_v, name@);
                    crate::keyed::lemma_key_pos(self.filtered_indices@, name@);
                    assert(key_value(old_v, name@) == Some(old_v[i as int].1));
                    crate::keyed::lemma_first_unique(self.filtered_indices@, name@, i as int);
                }
            }
        }
    }

    /// Records the disk line counts of `name`.
    pub fn set_disk_counts(&mut self, name: &str, counts: DiskCounts)
        ensures
            key_value(final(self).disk_counts@, name@) == Some(counts),
    {
        set_key(&mut self.disk_counts, name, counts);
    }

    /// Stops the UI.
    pub fn quit(&mut self)
        ensures
            quits(old(self), final(self)),
    {
        self.running = false;
    }

    /// Stops the UI and asks for every process to be stopped.
    pub fn quit_and_stop(&mut self)
        ensures
            quits_and_stops(old(self), final(self)),
    {
        self.stop_all_on_quit = true;
        self.running = false;
    }

    /// How many processes are running.
    pub fn running_count(&self) -> (r: usize)
        ensures
            r == count_in_state(self.processes@, ProcessState::Running),
    {
        count_state(&self.processes, ProcessState::Running)
    }

    /// How many processes have exited.
    pub fn exited_count(&self) -> (r: usize)
        ensures
            r == count_in_state(self.processes@, ProcessState::Exited),
    {
        count_state(&self.processes, ProcessState::Exited)
    }

    /// How many processes have failed.
    pub fn failed_count(&self) -> (r: usize)
        ensures
            r == count_in_state(self.processes@, ProcessState::Failed),
    {
        count_state(&self.processes, ProcessState::Failed)
    }
}

impl Default for App {
    fn default() -> (r: App)
        ensures
            r.processes@.len() == 0,
            r.selected == 0,
            r.stream_mode == StreamMode::Stdout,
            r.running,
            r.visible_height == 20,
    {
        App::new()
    }
}

/// The stream tag of a line from `s`.
pub open spec fn line_source(s: Stream) -> LineSource {
    match s {
        Stream::Stdout => LineSource::Stdout,
        Stream::Stderr => LineSource::Stderr,
    }
}

/// The lines of a buffer of capacity `cap` after `(src, line)` is pushed.
pub open spec fn pushed(v: Seq<(LineSource, Seq<char>)>, cap: usize, src: LineSource, line: Seq<char>) -> Seq<(LineSource, Seq<char>)> {
    if v.len() == cap && v.len() > 0 {
        v.drop_first().push((src, line))
    } else {
        v.push((src, line))
    }
}

/// How many processes are in state `st`.
fn count_state(ps: &Vec<ProcessInfo>, st: ProcessState) -> (r: usize)
    ensures
        r == count_in_state(ps@, st),
{
    let mut n: usize = 0;
    let mut i: usize = 0;
    while i < ps.len()
        invariant
            i <= ps@.len(),
            n == count_in_state(ps@.take(i as int), st),
            n <= i,
        decreases ps.len() - i,
    {
        assert(ps@.take(i + 1).drop_last() =~= ps@.take(i as int));
        if ps[i].state == st {
            n = n + 1;
        }
        i = i + 1;
    }
    assert(ps@.take(ps@.len() as int) =~= ps@);
    n
}

/// The selection after moving down in a list of `n`, wrapping to the top.
pub open spec fn next_index(sel: int, n: int) -> int {
    if n > 0 { (sel + 1) % n } else { sel }
}

/// The selection after moving up in a list of `n`, wrapping to the bottom.
pub open spec fn prev_index(sel: int, n: int) -> int {
    if n > 0 {
        if sel == 0 { n - 1 } else { sel - 1 }
    } else {
        sel
    }
}

/// Moving the selection down and then up, or up and then down, returns
/// to the process it started at.
pub proof fn lemma_select_next_prev_inverse(sel: int, n: int)
    requires
        0 <= sel < n,
    ensures
        prev_index(next_index(sel, n), n) == sel,
        next_index(prev_index(sel, n), n) == sel,
{
    if sel + 1 < n {
        vstd::arithmetic::div_mod::lemma_small_mod((sel + 1) as nat, n as nat);
    } else {
        vstd::arithmetic::div_mod::lemma_mod_self_0(n);
    }
    vstd::arithmetic::div_mod::lemma_small_mod(sel as nat, n as nat);
    vstd::arithmetic::div_mod::lemma_mod_self_0(n);
}

/// Cycling the stream view three times shows the view it started at.
pub proof fn lemma_stream_mode_cycle(m: StreamMode)
    ensures
        next_stream_mode(next_stream_mode(next_stream_mode(m))) == m,
        next_stream_mode(m) != m,
{
}

/// Pushing into a buffer with a capacity never grows it past the
/// capacity, and the stdout and stderr counts always add up to its length.
pub proof fn lemma_buffer_bounded(v: Seq<(LineSource, Seq<char>)>, cap: usize, src: LineSource, line: Seq<char>)
    requires
        cap > 0,
        v.len() <= cap,
    ensures
        pushed(v, cap, src, line).len() <= cap,
        pushed(v, cap, src, line).last() == (src, line),
        lines_from(pushed(v, cap, src, line), LineSource::Stdout).len()
            + lines_from(pushed(v, cap, src, line), LineSource::Stderr).len() == pushed(v, cap, src, line).len(),
{
    lemma_lines_sum(pushed(v, cap, src, line));
}

/// The view after `m` in the cycle stdout, stderr, both.
pub open spec fn next_stream_mode(m: StreamMode) -> StreamMode {
    match m {
        StreamMode::Stdout => StreamMode::Stderr,
        StreamMode::Stderr => StreamMode::Both,
        StreamMode::Both => StreamMode::Stdout,
    }
}

proof fn lemma_stream_entries_len(v: Seq<(LineSource, Seq<char>)>, mode: StreamMode)
    ensures
        stream_entries(v, mode).len() == match mode {
            StreamMode::Stdout => lines_from(v, LineSource::Stdout).len(),
            StreamMode::Stderr => lines_from(v, LineSource::Stderr).len(),
            StreamMode::Both => v.len(),
        },
{
}

/// The stream view of a buffer, tagged, oldest first.
pub fn stream_view_lines(buf: &OutputBuffer, mode: StreamMode) -> (r: Vec<(LineSource, String)>)
    ensures
        entries_view(r@) == stream_entries(buf@, mode),
{
    match mode {
        StreamMode::Both => buf.all_lines(),
        StreamMode::Stdout => tag_all(buf.stdout_lines(), LineSource::Stdout),
        StreamMode::Stderr => tag_all(buf.stderr_lines(), LineSource::Stderr),
    }
}

/// Each line paired with `src`.
fn tag_all(lines: Vec<String>, src: LineSource) -> (r: Vec<(LineSource, String)>)
    ensures
        entries_view(r@) == lines.deep_view().map_values(|l: Seq<char>| (src, l)),
{
    let mut out: Vec<(LineSource, String)> = Vec::new();
    let mut i: usize = 0;
    while i < lines.len()
        invariant
            i <= lines@.len(),
            out@.len() == i,
            entries_view(out@) == lines.deep_view().take(i as int).map_values(|l: Seq<char>| (src, l)),
        decreases lines.len() - i,
    {
        let ghost before = out@;
        let l = lines[i].clone();
        out.push((src, l));
        proof {
            assert(out@ == before.push((src, l)));
            assert(lines.deep_view()[i as int] == lines@[i as int]@);
            assert(l@ == lines@[i as int]@);
            assert(entries_view(out@) =~= entries_view(before).push((src, l@)));
            let dv = lines.deep_view();
            assert(dv.take(i + 1) =~= dv.take(i as int).push(dv[i as int]));
            assert(dv.take(i + 1).map_values(|l: Seq<char>| (src, l)) =~= dv.take(i as int).map_values(|l: Seq<char>| (src, l)).push((src, dv[i as int])));
            assert(entries_view(out@) =~= lines.deep_view().take(i + 1).map_values(|l: Seq<char>| (src, l)));
        }
        i = i + 1;
    }
    assert(lines.deep_view().take(lines@.len() as int) =~= lines.deep_view());
    out
}

/// How many of the lines contain `pat`.
fn count_lines_containing(lines: &Vec<(LineSource, String)>, pat: &str) -> (r: usize)
    ensures
        r == count_containing(entries_view(lines@), pat@),
{
    let mut n: usize = 0;
    let mut i: usize = 0;
    while i < lines.len()
        invariant
            i <= lines@.len(),
            n == count_containing(entries_view(lines@).take(i as int), pat@),
            n <= i,
        decreases lines.len() - i,
    {
        let ghost v = entries_view(lines@);
        proof {
            assert(v.take(i + 1).drop_last() =~= v.take(i as int));
            assert(v.take(i + 1).last() == v[i as int]);
        }
        if str_contains(lines[i].1.as_str(), pat) {
            n = n + 1;
        }
        i = i + 1;
    }
    assert(entries_view(lines@).take(lines@.len() as int) =~= entries_view(lines@));
    n
}

} // verus!
