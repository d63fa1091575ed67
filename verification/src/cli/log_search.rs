//! The log search pipeline behind `logs --grep/--since/--context/--tail`.
//!
//! The pipeline resolves `--since` to a starting line, finds the matching
//! lines, keeps the last `tail` of them, widens each kept match by the
//! context lines around it, and reads the text of the lines that remain.
//! This module holds the decisions of that pipeline; reading the log files
//! is left to the caller.

use vstd::prelude::*;
use crate::disk_log_reader::{LineSource, StreamMode};
use crate::text::{chars_of, parse_u64, parse_u64_spec};
use crate::matching::{
    MatchMode, accepted_numbers, lemma_accepted_numbers_bounds, lemma_accepted_numbers_same,
    matching_line_numbers, regex_error_text, regex_valid,
};

verus! {

broadcast use vstd::string::group_string_axioms;

/// The search results of one process.
pub struct SearchResult {
    pub process: String,
    pub lines: Vec<SearchLine>,
}

/// One line of search output.
pub struct SearchLine {
    pub line_number: usize,
    pub source: LineSource,
    pub text: String,
    pub is_context: bool,
}

/// Parameters of the search pipeline.
pub struct SearchParams {
    pub grep: Option<String>,
    pub regex: bool,
    pub since: Option<String>,
    pub tail: usize,
    pub context: Option<u32>,
    pub stderr: bool,
}

impl SearchParams {
    /// How lines are matched: `None` without `--grep`; with `--regex`, the
    /// pattern as a regular expression (an error naming the pattern and the
    /// crate's message where it does not compile); else as a substring.
    pub fn match_mode(&self) -> (r: Result<Option<MatchMode>, String>)
        ensures
            match self.grep {
                None => r == Ok::<Option<MatchMode>, String>(None),
                Some(p) => match r {
                    Ok(Some(m)) => m.valid() && if self.regex {
                        m matches MatchMode::Regex(q) && q@ == p@
                    } else {
                        m matches MatchMode::Substring(q) && q@ == p@
                    },
                    Ok(None) => false,
                    Err(e) => self.regex && !regex_valid(p@) && e@ == "invalid regex '"@ + p@ + "': "@
                        + regex_error_text(p@),
                },
            },
    {
        match &self.grep {
            None => Ok(None),
            Some(p) => match MatchMode::new(p.as_str(), self.regex) {
                Ok(m) => Ok(Some(m)),
                Err(e) => {
                    let mut msg = String::new();
                    msg.append("invalid regex '");
                    msg.append(p.as_str());
                    msg.append("': ");
                    msg.append(e.as_str());
                    Err(msg)
                },
            },
        }
    }

    /// The stream searched: stderr with `--stderr`, else stdout.
    pub fn stream_mode(&self) -> (r: StreamMode)
        ensures
            r == (if self.stderr {
                StreamMode::Stderr
            } else {
                StreamMode::Stdout
            }),
    {
        if self.stderr {
            StreamMode::Stderr
        } else {
            StreamMode::Stdout
        }
    }
}

// ---------------------------------------------------------------------------
// Duration parsing
// ---------------------------------------------------------------------------

/// The number of seconds a duration suffix stands for, if it is one.
pub open spec fn suffix_seconds(c: char) -> Option<u64> {
    if c == 's' {
        Some(1u64)
    } else if c == 'm' {
        Some(60u64)
    } else if c == 'h' {
        Some(3600u64)
    } else {
        None
    }
}

/// What `parse_duration` gives back for `s`: the number before the
/// suffix times the seconds of the suffix, or the error message.
pub open spec fn parse_duration_spec(s: Seq<char>) -> Result<int, Seq<char>> {
    if s.len() == 0 {
        Err("empty duration"@)
    } else if suffix_seconds(s.last()) is None {
        Err("unknown duration suffix '"@ + seq![s.last()] + "' (expected s/m/h)"@)
    } else if parse_u64_spec(s.drop_last()) is None {
        Err("invalid number in duration '"@ + s + "'"@)
    } else if parse_u64_spec(s.drop_last()).unwrap() == 0 {
        Err("duration must be positive"@)
    } else {
        Ok(parse_u64_spec(s.drop_last()).unwrap() * suffix_seconds(s.last()).unwrap())
    }
}

/// Parses a duration such as `"30s"`, `"5m"` or `"2h"` into seconds; the
/// number must be a positive integer.
pub fn parse_duration(spec: &str) -> (r: Result<u64, String>)
    requires
        spec@.len() == 0 || (spec@.last() as u32) < 128,
        parse_duration_spec(spec@) is Ok ==> parse_duration_spec(spec@)->Ok_0 <= u64::MAX,
    ensures
        match parse_duration_spec(spec@) {
            Ok(v) => r matches Ok(x) && x == v,
            Err(m) => r matches Err(e) && e@ == m,
        },
{
    let cs = chars_of(spec);
    if cs.len() == 0 {
        let mut e = String::new();
        e.append("empty duration");
        return Err(e);
    }
    let last = cs[cs.len() - 1];
    let multiplier: u64 = if last == 's' {
        1
    } else if last == 'm' {
        60
    } else if last == 'h' {
        3600
    } else {
        let mut e = String::new();
        e.append("unknown duration suffix '");
        let one = cs.as_slice().len();
        e.append(crate::text::substring(spec, one - 1, one).as_str());
        e.append("' (expected s/m/h)");
        assert(e@ =~= "unknown duration suffix '"@ + seq![spec@.last()] + "' (expected s/m/h)"@);
        return Err(e);
    };
    let num = crate::text::slice_prefix(cs.as_slice(), cs.len() - 1);
    assert(num@ =~= spec@.drop_last());
    match parse_u64(num.as_slice()) {
        None => {
            let mut e = String::new();
            e.append("invalid number in duration '");
            e.append(spec);
            e.append("'");
            assert(e@ =~= "invalid number in duration '"@ + spec@ + "'"@);
            Err(e)
        },
        Some(n) => {
            if n == 0 {
                let mut e = String::new();
                e.append("duration must be positive");
                Err(e)
            } else {
                Ok(n * multiplier)
            }
        },
    }
}

// ---------------------------------------------------------------------------
// Since resolution
// ---------------------------------------------------------------------------

/// The first line of a `--since` window of `duration_secs` seconds, when
/// `total` lines were written over `uptime_secs` seconds at a uniform rate:
/// that many lines back from the end, but not before `incarnation_start`
/// (the first line after the last restart).
pub open spec fn since_duration_start(
    total: nat,
    duration_secs: nat,
    uptime_secs: nat,
    incarnation_start: nat,
) -> nat {
    let in_window = total * duration_secs / uptime_secs;
    let estimated = if in_window >= total {
        0
    } else {
        (total - in_window) as nat
    };
    if estimated >= incarnation_start {
        estimated
    } else {
        incarnation_start
    }
}

/// Estimates the first line of a duration-based `--since` window.
pub fn estimate_since_start(
    total: usize,
    duration_secs: u64,
    uptime_secs: u64,
    incarnation_start: usize,
) -> (r: usize)
    requires
        uptime_secs > 0,
        total * duration_secs <= u64::MAX,
        (total * duration_secs) as int / (uptime_secs as int) <= usize::MAX,
    ensures
        r == since_duration_start(
            total as nat,
            duration_secs as nat,
            uptime_secs as nat,
            incarnation_start as nat,
        ),
{
    let product: u64 = total as u64 * duration_secs;
    let in_window: usize = (product / uptime_secs) as usize;
    let estimated: usize = if in_window >= total {
        0
    } else {
        total - in_window
    };
    if estimated >= incarnation_start {
        estimated
    } else {
        incarnation_start
    }
}

/// What a `--since` value asks for.
#[derive(Debug, Clone, Copy, PartialEq, Eq, Structural)]
pub enum SinceSpec {
    /// All history.
    Start,
    /// The output after the last restart.
    Restart,
    /// The last so many seconds.
    Duration(u64),
}

/// How a `--since` value reads: `start`, `restart`, or a duration (with
/// the error of [`parse_duration`] where it is none).
pub open spec fn since_spec(s: Seq<char>) -> Result<SinceSpec, Seq<char>> {
    if s == "start"@ {
        Ok(SinceSpec::Start)
    } else if s == "restart"@ {
        Ok(SinceSpec::Restart)
    } else {
        match parse_duration_spec(s) {
            Ok(n) => Ok(SinceSpec::Duration(n as u64)),
            Err(m) => Err(m),
        }
    }
}

/// Whether the number of seconds of a duration fits in 64 bits (true of
/// anything that is no duration).
pub fn duration_in_range(spec: &str) -> (r: bool)
    ensures
        r == (parse_duration_spec(spec@) is Ok ==> parse_duration_spec(spec@)->Ok_0 <= u64::MAX),
{
    let cs = chars_of(spec);
    if cs.len() == 0 {
        return true;
    }
    let last = cs[cs.len() - 1];
    let multiplier: u64 = if last == 's' {
        1
    } else if last == 'm' {
        60
    } else if last == 'h' {
        3600
    } else {
        return true;
    };
    let num = crate::text::slice_prefix(cs.as_slice(), cs.len() - 1);
    assert(num@ =~= spec@.drop_last());
    match parse_u64(num.as_slice()) {
        None => true,
        Some(n) => n.checked_mul(multiplier).is_some(),
    }
}

/// Reads a `--since` value.
pub fn parse_since(since: &str) -> (r: Result<SinceSpec, String>)
    requires
        since@ != "start"@ && since@ != "restart"@ ==> {
            &&& since@.len() == 0 || (since@.last() as u32) < 128
            &&& parse_duration_spec(since@) is Ok ==> parse_duration_spec(since@)->Ok_0 <= u64::MAX
        },
    ensures
        match since_spec(since@) {
            Ok(k) => r == Ok::<SinceSpec, String>(k),
            Err(m) => r matches Err(e) && e@ == m,
        },
{
    if crate::text::str_eq(since, "start") {
        return Ok(SinceSpec::Start);
    }
    if crate::text::str_eq(since, "restart") {
        return Ok(SinceSpec::Restart);
    }
    match parse_duration(since) {
        Ok(n) => Ok(SinceSpec::Duration(n)),
        Err(e) => Err(e),
    }
}

/// The first line of a `--since` window, and whether to warn that the
/// uptime was unknown: all history for `start`; the incarnation start
/// (the first line after the last restart) for `restart`; for a
/// duration, nothing of an empty log, the incarnation start without an
/// uptime, else the estimate of [`since_duration_start`].
pub open spec fn since_start_line_spec(
    kind: SinceSpec,
    total: nat,
    uptime_secs: Option<u64>,
    incarnation_start: nat,
) -> (nat, bool) {
    match kind {
        SinceSpec::Start => (0, false),
        SinceSpec::Restart => (incarnation_start, false),
        SinceSpec::Duration(d) => if total == 0 {
            (0, false)
        } else {
            match uptime_secs {
                Some(u) => if u > 0 {
                    (since_duration_start(total, d as nat, u as nat, incarnation_start), false)
                } else {
                    (incarnation_start, true)
                },
                None => (incarnation_start, true),
            }
        },
    }
}

/// Resolves a `--since` value to its first line.
pub fn since_start_line(
    kind: SinceSpec,
    total: usize,
    uptime_secs: Option<u64>,
    incarnation_start: usize,
) -> (r: (usize, bool))
    requires
        total > 0 ==> match (kind, uptime_secs) {
            (SinceSpec::Duration(d), Some(u)) => u > 0 ==> {
                &&& total * d <= u64::MAX
                &&& (total * d) as int / (u as int) <= usize::MAX
            },
            _ => true,
        },
    ensures
        (r.0 as nat, r.1) == since_start_line_spec(kind, total as nat, uptime_secs, incarnation_start as nat),
{
    match kind {
        SinceSpec::Start => (0, false),
        SinceSpec::Restart => (incarnation_start, false),
        SinceSpec::Duration(d) => {
            if total == 0 {
                (0, false)
            } else {
                match uptime_secs {
                    Some(u) => {
                        if u > 0 {
                            (estimate_since_start(total, d, u, incarnation_start), false)
                        } else {
                            (incarnation_start, true)
                        }
                    },
                    None => (incarnation_start, true),
                }
            }
        },
    }
}

/// Where a search starts, and whether to warn that the uptime was
/// unknown, for a `--since` of `kind`, given the first line after the last
/// restart as `incarnation` (or the error reading it): a `restart` fails
/// with that error; the other kinds start at line 0 of the incarnation
/// where it could not be read.
pub open spec fn since_outcome(
    kind: SinceSpec,
    total: nat,
    uptime_secs: Option<u64>,
    incarnation: Result<usize, String>,
) -> Result<(nat, bool), Seq<char>> {
    match (kind, incarnation) {
        (SinceSpec::Restart, Err(e)) => Err(e@),
        (_, Err(_)) => Ok(since_start_line_spec(kind, total, uptime_secs, 0)),
        (_, Ok(i)) => Ok(since_start_line_spec(kind, total, uptime_secs, i as nat)),
    }
}

/// The first step of a search of one process's logs: the pattern is
/// checked first (its error wins); then `--since`, when given, is read
/// (its error next) and resolved to the first line to search, with
/// `incarnation` the first line after the last restart as read from the
/// logs. Without `--since` the search starts at line 0.
pub fn search_begin(
    params: &SearchParams,
    total: usize,
    uptime_secs: Option<u64>,
    incarnation: Result<usize, String>,
) -> (r: Result<(usize, bool), String>)
    requires
        pattern_error(*params) is None && params.since is Some ==> {
            let s = params.since->0;
            &&& s@ != "start"@ && s@ != "restart"@ ==> {
                &&& s@.len() == 0 || (s@.last() as u32) < 128
                &&& parse_duration_spec(s@) is Ok ==> parse_duration_spec(s@)->Ok_0 <= u64::MAX
            }
            &&& since_spec(s@) matches Ok(SinceSpec::Duration(d)) ==> (total > 0 ==> match uptime_secs {
                Some(u) => u > 0 ==> {
                    &&& total * d <= u64::MAX
                    &&& (total * d) as int / (u as int) <= usize::MAX
                },
                None => true,
            })
        },
    ensures
        match pattern_error(*params) {
            Some(e) => r matches Err(m) && m@ == e,
            None => match params.since {
                None => r == Ok::<(usize, bool), String>((0, false)),
                Some(s) => match since_spec(s@) {
                    Err(e) => r matches Err(m) && m@ == e,
                    Ok(kind) => match since_outcome(kind, total as nat, uptime_secs, incarnation) {
                        Err(e) => r matches Err(m) && m@ == e,
                        Ok((line, warn)) => r matches Ok((l, w)) && l == line && w == warn,
                    },
                },
            },
        },
{
    match params.match_mode() {
        Ok(_) => {},
        Err(e) => {
            return Err(e);
        },
    }
    let since = match &params.since {
        None => {
            return Ok((0, false));
        },
        Some(s) => s,
    };
    let kind = match parse_since(since.as_str()) {
        Ok(k) => k,
        Err(e) => {
            return Err(e);
        },
    };
    let inc = match incarnation {
        Ok(i) => i,
        Err(e) => match kind {
            SinceSpec::Restart => {
                return Err(e);
            },
            _ => 0,
        },
    };
    Ok(since_start_line(kind, total, uptime_secs, inc))
}

/// Whether `p` begins `s`.
pub open spec fn has_prefix(s: Seq<char>, p: Seq<char>) -> bool {
    p.len() <= s.len() && s.take(p.len() as int) == p
}

fn starts_with(s: &str, p: &str) -> (r: bool)
    ensures
        r == has_prefix(s@, p@),
{
    let a = chars_of(s);
    let b = chars_of(p);
    if b.len() > a.len() {
        return false;
    }
    let mut i: usize = 0;
    while i < b.len()
        invariant
            b@.len() <= a@.len(),
            i <= b@.len(),
            a@ == s@,
            b@ == p@,
            forall|k: int| 0 <= k < i ==> a@[k] == b@[k],
        decreases b.len() - i,
    {
        if a[i] != b[i] {
            assert(s@.take(p@.len() as int)[i as int] != p@[i as int]);
            return false;
        }
        i = i + 1;
    }
    assert(s@.take(p@.len() as int) =~= p@);
    true
}

/// Whether a log line marks a restart: a note of an automatic restart or
/// of a restart on a file change.
pub open spec fn is_restart_marker(line: Seq<char>) -> bool {
    has_prefix(line, "[agent-procs] Restarted"@) || line == "[agent-procs] File changed, restarted"@
}

/// Whether a log line marks a restart.
pub fn restart_marker(line: &str) -> (r: bool)
    ensures
        r == is_restart_marker(line@),
{
    starts_with(line, "[agent-procs] Restarted") || crate::text::str_eq(line, "[agent-procs] File changed, restarted")
}

/// The position of the last restart marker among `lines`, if any.
pub fn last_restart_marker(lines: &Vec<String>) -> (r: Option<usize>)
    ensures
        match r {
            Some(k) => k < lines@.len() && is_restart_marker(lines@[k as int]@)
                && forall|j: int| k < j < lines@.len() ==> !is_restart_marker(#[trigger] lines@[j]@),
            None => forall|j: int| 0 <= j < lines@.len() ==> !is_restart_marker(#[trigger] lines@[j]@),
        },
{
    let mut i: usize = lines.len();
    while i > 0
        invariant
            i <= lines@.len(),
            forall|j: int| i <= j < lines@.len() ==> !is_restart_marker(#[trigger] lines@[j]@),
        decreases i,
    {
        if restart_marker(lines[i - 1].as_str()) {
            return Some(i - 1);
        }
        i = i - 1;
    }
    None
}

/// The first line after a restart: the one after its marker, or line 0
/// when there is no marker.
pub fn after_marker(marker: Option<usize>) -> (r: usize)
    requires
        marker matches Some(k) ==> k < usize::MAX,
    ensures
        r == match marker {
            Some(k) => k + 1,
            None => 0,
        },
{
    match marker {
        Some(k) => k + 1,
        None => 0,
    }
}

/// The first position in the ascending sequence numbers `seqs` (those
/// of the stderr lines) whose number is above `seq` (that of a stdout
/// line): where the other stream resumes after that line.
pub fn first_after_seq(seqs: &[u64], seq: u64) -> (r: usize)
    ensures
        r <= seqs@.len(),
        forall|i: int| 0 <= i < r ==> seqs@[i] <= seq,
        r < seqs@.len() ==> seqs@[r as int] > seq,
{
    let mut i: usize = 0;
    while i < seqs.len()
        invariant
            i <= seqs@.len(),
            forall|k: int| 0 <= k < i ==> seqs@[k] <= seq,
        decreases seqs.len() - i,
    {
        if seqs[i] > seq {
            return i;
        }
        i = i + 1;
    }
    i
}

// ---------------------------------------------------------------------------
// Context expansion
// ---------------------------------------------------------------------------

/// First line of the context range around a match.
pub open spec fn context_start(m: usize, ctx: usize) -> usize {
    if m >= ctx {
        (m - ctx) as usize
    } else {
        0
    }
}

/// One past the last line of the context range around a match.
pub open spec fn context_end(m: usize, ctx: usize, total: usize) -> usize {
    if m + ctx + 1 <= total {
        (m + ctx + 1) as usize
    } else {
        total
    }
}

/// The ranges of lines that the matches cover, each merged into the range
/// before it when it starts no later than that range ends.
pub open spec fn merged_ranges(matches: Seq<usize>, ctx: usize, total: usize) -> Seq<
    (usize, usize),
>
    decreases matches.len(),
{
    if matches.len() == 0 {
        seq![]
    } else {
        let prev = merged_ranges(matches.drop_last(), ctx, total);
        let m = matches.last();
        let start = context_start(m, ctx);
        let end = context_end(m, ctx, total);
        if prev.len() > 0 && start <= prev.last().1 {
            let last = prev.last();
            prev.update(
                prev.len() - 1,
                (
                    last.0,
                    if end > last.1 {
                        end
                    } else {
                        last.1
                    },
                ),
            )
        } else {
            prev.push((start, end))
        }
    }
}

/// The lines `start, start + 1, ..., end - 1`.
pub open spec fn range_lines(start: usize, end: usize) -> Seq<usize> {
    Seq::new(
        if end > start {
            (end - start) as nat
        } else {
            0
        },
        |k: int| (start + k) as usize,
    )
}

/// The lines of a sequence of ranges, range after range.
pub open spec fn expand_ranges(ranges: Seq<(usize, usize)>) -> Seq<usize>
    decreases ranges.len(),
{
    if ranges.len() == 0 {
        seq![]
    } else {
        expand_ranges(ranges.drop_last()) + range_lines(ranges.last().0, ranges.last().1)
    }
}

/// The output of context expansion: each covered line, marked as context
/// when it is not itself a match.
pub open spec fn expand_context_spec(matches: Seq<usize>, ctx: usize, total: usize) -> Seq<
    (usize, bool),
> {
    let lines = expand_ranges(merged_ranges(matches, ctx, total));
    Seq::new(lines.len(), |k: int| (lines[k], !matches.contains(lines[k])))
}

/// Whether line `l` is within the context of some match: no further than
/// `ctx` lines from it, and before line `total`.
pub open spec fn near_match(matches: Seq<usize>, ctx: usize, total: usize, l: int) -> bool {
    exists|i: int| 0 <= i < matches.len() && context_start(#[trigger] matches[i], ctx) <= l < context_end(matches[i], ctx, total)
}

/// Whether line `l` lies in one of the ranges.
pub open spec fn in_ranges(ranges: Seq<(usize, usize)>, l: int) -> bool {
    exists|k: int| 0 <= k < ranges.len() && (#[trigger] ranges[k]).0 <= l < ranges[k].1
}

/// Whether the matches are strictly ascending, inside the log, and far
/// enough from the end of `usize` for their context.
pub open spec fn ordered_matches(matches: Seq<usize>, ctx: usize, total: usize) -> bool {
    &&& forall|i: int, j: int| 0 <= i < j < matches.len() ==> matches[i] < matches[j]
    &&& forall|i: int| 0 <= i < matches.len() ==> matches[i] < total && matches[i] + ctx + 1 <= usize::MAX
}

proof fn lemma_merged_ranges(matches: Seq<usize>, ctx: usize, total: usize)
    requires
        ordered_matches(matches, ctx, total),
    ensures
        ({
            let r = merged_ranges(matches, ctx, total);
            &&& forall|k: int| 0 <= k < r.len() ==> (#[trigger] r[k]).0 < r[k].1 <= total
            &&& forall|k: int| 0 <= k && k + 1 < r.len() ==> (#[trigger] r[k]).1 < r[k + 1].0
            &&& forall|l: int| in_ranges(r, l) <==> near_match(matches, ctx, total, l)
            &&& matches.len() > 0 ==> r.len() > 0 && r.last().0 <= context_start(matches.last(), ctx)
                && r.last().1 >= context_end(matches.last(), ctx, total)
        }),
    decreases matches.len(),
{
    if matches.len() == 0 {
        return;
    }
    let init = matches.drop_last();
    assert(ordered_matches(init, ctx, total));
    lemma_merged_ranges(init, ctx, total);
    let prev = merged_ranges(init, ctx, total);
    let m = matches.last();
    let s = context_start(m, ctx);
    let e = context_end(m, ctx, total);
    let r = merged_ranges(matches, ctx, total);
    assert(s <= m < e);
    if init.len() > 0 {
        assert(init.last() < m);
        assert(context_start(init.last(), ctx) <= s);
    }
    if prev.len() > 0 && s <= prev.last().1 {
        let last = prev.last();
        let ne: usize = if e > last.1 { e } else { last.1 };
        assert(r == prev.update(prev.len() - 1, (last.0, ne)));
        assert(init.len() > 0) by {
            if init.len() == 0 {
                assert(!in_ranges(prev, last.0 as int)) by {
                    assert(!near_match(init, ctx, total, last.0 as int));
                }
                assert(prev[prev.len() - 1].0 <= last.0 < prev[prev.len() - 1].1);
            }
        }
        assert forall|l: int| in_ranges(r, l) <==> near_match(matches, ctx, total, l) by {
            if in_ranges(r, l) {
                let k = choose|k: int| 0 <= k < r.len() && (#[trigger] r[k]).0 <= l < r[k].1;
                if k < r.len() - 1 {
                    assert(r[k] == prev[k]);
                    assert(in_ranges(prev, l));
                    let i = choose|i: int| 0 <= i < init.len() && context_start(#[trigger] init[i], ctx) <= l < context_end(init[i], ctx, total);
                    assert(matches[i] == init[i]);
                } else if l < last.1 {
                    assert(prev[k].0 <= l < prev[k].1);
                    assert(in_ranges(prev, l));
                    let i = choose|i: int| 0 <= i < init.len() && context_start(#[trigger] init[i], ctx) <= l < context_end(init[i], ctx, total);
                    assert(matches[i] == init[i]);
                } else {
                    assert(s <= l < e);
                    assert(matches[matches.len() - 1] == m);
                }
            }
            if near_match(matches, ctx, total, l) {
                let i = choose|i: int| 0 <= i < matches.len() && context_start(#[trigger] matches[i], ctx) <= l < context_end(matches[i], ctx, total);
                if i < matches.len() - 1 {
                    assert(init[i] == matches[i]);
                    assert(near_match(init, ctx, total, l));
                    assert(in_ranges(prev, l));
                    let k = choose|k: int| 0 <= k < prev.len() && (#[trigger] prev[k]).0 <= l < prev[k].1;
                    if k < prev.len() - 1 {
                        assert(r[k] == prev[k]);
                    } else {
                        assert(r[k].0 <= l < r[k].1);
                    }
                } else {
                    assert(r[r.len() - 1].0 <= l < r[r.len() - 1].1);
                }
            }
        }
        assert forall|k: int| 0 <= k && k + 1 < r.len() implies (#[trigger] r[k]).1 < r[k + 1].0 by {
            if k + 1 < r.len() - 1 {
                assert(r[k] == prev[k]);
                assert(r[k + 1] == prev[k + 1]);
            } else {
                assert(r[k] == prev[k]);
                assert(r[k + 1].0 == prev[k + 1].0);
            }
        }
        assert forall|k: int| 0 <= k < r.len() implies (#[trigger] r[k]).0 < r[k].1 <= total by {
            if k < r.len() - 1 {
                assert(r[k] == prev[k]);
            }
        }
    } else {
        assert(r == prev.push((s, e)));
        assert forall|l: int| in_ranges(r, l) <==> near_match(matches, ctx, total, l) by {
            if in_ranges(r, l) {
                let k = choose|k: int| 0 <= k < r.len() && (#[trigger] r[k]).0 <= l < r[k].1;
                if k < prev.len() {
                    assert(r[k] == prev[k]);
                    assert(in_ranges(prev, l));
                    let i = choose|i: int| 0 <= i < init.len() && context_start(#[trigger] init[i], ctx) <= l < context_end(init[i], ctx, total);
                    assert(matches[i] == init[i]);
                } else {
                    assert(matches[matches.len() - 1] == m);
                }
            }
            if near_match(matches, ctx, total, l) {
                let i = choose|i: int| 0 <= i < matches.len() && context_start(#[trigger] matches[i], ctx) <= l < context_end(matches[i], ctx, total);
                if i < matches.len() - 1 {
                    assert(init[i] == matches[i]);
                    assert(near_match(init, ctx, total, l));
                    assert(in_ranges(prev, l));
                    let k = choose|k: int| 0 <= k < prev.len() && (#[trigger] prev[k]).0 <= l < prev[k].1;
                    assert(r[k] == prev[k]);
                } else {
                    assert(r[r.len() - 1] == (s, e));
                }
            }
        }
        assert forall|k: int| 0 <= k && k + 1 < r.len() implies (#[trigger] r[k]).1 < r[k + 1].0 by {
            if k + 1 < r.len() - 1 {
                assert(r[k] == prev[k]);
                assert(r[k + 1] == prev[k + 1]);
            } else {
                assert(r[k] == prev[k]);
            }
        }
        assert forall|k: int| 0 <= k < r.len() implies (#[trigger] r[k]).0 < r[k].1 <= total by {
            if k < r.len() - 1 {
                assert(r[k] == prev[k]);
            }
        }
    }
}

proof fn lemma_expand_ranges(r: Seq<(usize, usize)>)
    requires
        forall|k: int| 0 <= k < r.len() ==> (#[trigger] r[k]).0 < r[k].1,
        forall|k: int| 0 <= k && k + 1 < r.len() ==> (#[trigger] r[k]).1 < r[k + 1].0,
    ensures
        forall|i: int, j: int| 0 <= i < j < expand_ranges(r).len() ==> #[trigger] expand_ranges(r)[i] < #[trigger] expand_ranges(r)[j],
        forall|l: usize| #![trigger in_ranges(r, l as int)] expand_ranges(r).contains(l) <==> in_ranges(r, l as int),
        r.len() > 0 ==> forall|i: int| 0 <= i < expand_ranges(r).len() ==> #[trigger] expand_ranges(r)[i] < r.last().1,
        r.len() > 0 ==> forall|i: int| 0 <= i < expand_ranges(r).len() ==> #[trigger] expand_ranges(r)[i] >= r[0].0,
    decreases r.len(),
{
    if r.len() == 0 {
        assert forall|l: int| !in_ranges(r, l) by {}
        return;
    }
    let init = r.drop_last();
    lemma_expand_ranges(init);
    let a = expand_ranges(init);
    let last = r.last();
    let b = range_lines(last.0, last.1);
    let x = expand_ranges(r);
    assert(x == a + b);
    assert forall|i: int, j: int| 0 <= i < j < x.len() implies #[trigger] x[i] < #[trigger] x[j] by {
        if j < a.len() {
        } else if i < a.len() {
            assert(init.len() > 0 ==> init.last().1 < last.0) by {
                if init.len() > 0 {
                    assert(init.last() == r[r.len() - 2]);
                }
            }
            assert(x[i] == a[i]);
            assert(x[j] == b[j - a.len()]);
        } else {
            assert(x[i] == b[i - a.len()]);
            assert(x[j] == b[j - a.len()]);
        }
    }
    assert forall|l: usize| #![trigger in_ranges(r, l as int)] x.contains(l) <==> in_ranges(r, l as int) by {
        if x.contains(l) {
            let i = choose|i: int| 0 <= i < x.len() && (#[trigger] x[i]) == l;
            if i < a.len() {
                assert(a.contains(l));
                assert(in_ranges(init, l as int));
                let k = choose|k: int| 0 <= k < init.len() && (#[trigger] init[k]).0 <= l < init[k].1;
                assert(r[k] == init[k]);
            } else {
                assert(x[i] == b[i - a.len()]);
                assert(r[r.len() - 1].0 <= l < r[r.len() - 1].1);
            }
        }
        if in_ranges(r, l as int) {
            let k = choose|k: int| 0 <= k < r.len() && (#[trigger] r[k]).0 <= l < r[k].1;
            if k < r.len() - 1 {
                assert(init[k] == r[k]);
                assert(in_ranges(init, l as int));
                let i = choose|i: int| 0 <= i < a.len() && (#[trigger] a[i]) == l;
                assert(x[i] == a[i]);
            } else {
                let t = l - last.0;
                assert(b[t] == l);
                assert(x[a.len() + t] == b[t]);
            }
        }
    }
    assert forall|i: int| 0 <= i < x.len() implies #[trigger] x[i] < r.last().1 by {
        if i < a.len() {
            if init.len() > 0 {
                assert(init.last() == r[r.len() - 2]);
            }
            assert(x[i] == a[i]);
        } else {
            assert(x[i] == b[i - a.len()]);
        }
    }
    assert forall|i: int| 0 <= i < x.len() implies #[trigger] x[i] >= r[0].0 by {
        if i < a.len() {
            assert(init[0] == r[0]);
            assert(x[i] == a[i]);
        } else {
            assert(x[i] == b[i - a.len()]);
            if r.len() > 1 {
                assert forall|k: int| 0 <= k < r.len() - 1 implies (#[trigger] r[k]).0 <= r[k + 1].0 by {}
                lemma_starts_ascend(r, 0, r.len() - 1);
            }
        }
    }
}

proof fn lemma_starts_ascend(r: Seq<(usize, usize)>, i: int, j: int)
    requires
        0 <= i <= j < r.len(),
        forall|k: int| 0 <= k < r.len() ==> (#[trigger] r[k]).0 < r[k].1,
        forall|k: int| 0 <= k && k + 1 < r.len() ==> (#[trigger] r[k]).1 < r[k + 1].0,
    ensures
        r[i].0 <= r[j].0,
    decreases j - i,
{
    if i < j {
        lemma_starts_ascend(r, i, j - 1);
    }
}

/// Context expansion of ascending matches lists each line near a match
/// exactly once, in ascending order, and marks as context exactly the
/// lines that are not matches.
pub proof fn lemma_expand_context_sorted_and_complete(matches: Seq<usize>, ctx: usize, total: usize)
    requires
        ordered_matches(matches, ctx, total),
    ensures
        ({
            let out = expand_context_spec(matches, ctx, total);
            &&& forall|i: int, j: int| 0 <= i < j < out.len() ==> (#[trigger] out[i]).0 < (#[trigger] out[j]).0
            &&& forall|l: usize| #![trigger near_match(matches, ctx, total, l as int)] (exists|k: int| 0 <= k < out.len() && (#[trigger] out[k]).0 == l)
                <==> near_match(matches, ctx, total, l as int)
            &&& forall|k: int| 0 <= k < out.len() ==> ((#[trigger] out[k]).1 <==> !matches.contains(out[k].0))
        }),
{
    lemma_merged_ranges(matches, ctx, total);
    let r = merged_ranges(matches, ctx, total);
    lemma_expand_ranges(r);
    let lines = expand_ranges(r);
    let out = expand_context_spec(matches, ctx, total);
    assert forall|l: usize| #![trigger near_match(matches, ctx, total, l as int)] (exists|k: int| 0 <= k < out.len() && (#[trigger] out[k]).0 == l)
        <==> near_match(matches, ctx, total, l as int) by {
        if exists|k: int| 0 <= k < out.len() && (#[trigger] out[k]).0 == l {
            let k = choose|k: int| 0 <= k < out.len() && (#[trigger] out[k]).0 == l;
            assert(lines[k] == l);
            assert(lines.contains(l));
            assert(in_ranges(r, l as int));
        }
        if near_match(matches, ctx, total, l as int) {
            assert(in_ranges(r, l as int));
            assert(lines.contains(l));
            let k = choose|k: int| 0 <= k < lines.len() && (#[trigger] lines[k]) == l;
            assert(out[k].0 == l);
        }
    }
}

/// Whether `x` occurs in `v`.
fn contains_usize(v: &[usize], x: usize) -> (r: bool)
    ensures
        r == v@.contains(x),
{
    let mut i: usize = 0;
    while i < v.len()
        invariant
            i <= v@.len(),
            forall|k: int| 0 <= k < i ==> v@[k] != x,
        decreases v.len() - i,
    {
        if v[i] == x {
            assert(v@[i as int] == x);
            return true;
        }
        i = i + 1;
    }
    false
}

/// Expands match line numbers into ranges including `context` lines on
/// each side, clamped to `[0, total_lines)`; overlapping or adjacent
/// ranges are merged. Returns `(line_number, is_context)` pairs.
pub fn expand_context(matches: &[usize], context: u32, total_lines: usize) -> (r: Vec<
    (usize, bool),
>)
    requires
        forall|i: int| 0 <= i < matches@.len() ==> #[trigger] matches@[i] + context + 1 <= usize::MAX,
    ensures
        r@ == (if matches@.len() == 0 || total_lines == 0 {
            seq![]
        } else {
            expand_context_spec(matches@, context as usize, total_lines)
        }),
{
    if matches.len() == 0 || total_lines == 0 {
        return Vec::new();
    }
    let ctx = context as usize;
    let mut ranges: Vec<(usize, usize)> = Vec::new();
    let mut i: usize = 0;
    while i < matches.len()
        invariant
            i <= matches@.len(),
            ctx == context as usize,
            forall|k: int| 0 <= k < matches@.len() ==> #[trigger] matches@[k] + ctx + 1 <= usize::MAX,
            ranges@ == merged_ranges(matches@.take(i as int), ctx, total_lines),
        decreases matches.len() - i,
    {
        let m = matches[i];
        let start = if m >= ctx {
            m - ctx
        } else {
            0
        };
        let end = if m + ctx + 1 <= total_lines {
            m + ctx + 1
        } else {
            total_lines
        };
        proof {
            assert(matches@.take(i + 1).drop_last() =~= matches@.take(i as int));
            assert(matches@.take(i + 1).last() == m);
        }
        let n = ranges.len();
        if n > 0 && start <= ranges[n - 1].1 {
            let last = ranges[n - 1];
            let new_end = if end > last.1 {
                end
            } else {
                last.1
            };
            ranges.set(n - 1, (last.0, new_end));
        } else {
            ranges.push((start, end));
        }
        i = i + 1;
    }
    assert(matches@.take(matches@.len() as int) =~= matches@);
    let mut result: Vec<(usize, bool)> = Vec::new();
    let ghost lines_done: Seq<usize> = seq![];
    let mut ri: usize = 0;
    while ri < ranges.len()
        invariant
            ri <= ranges@.len(),
            lines_done == expand_ranges(ranges@.take(ri as int)),
            result@ == Seq::new(
                lines_done.len(),
                |k: int| (lines_done[k], !matches@.contains(lines_done[k])),
            ),
        decreases ranges.len() - ri,
    {
        let (start, end) = ranges[ri];
        let mut line = start;
        proof {
            assert(ranges@.take(ri + 1).drop_last() =~= ranges@.take(ri as int));
        }
        while line < end
            invariant
                start <= line <= (if end > start {
                    end
                } else {
                    start
                }),
                result@ == Seq::new(
                    (lines_done.len() + (line - start)) as nat,
                    |k: int|
                        {
                            let all = lines_done + range_lines(start, end);
                            (all[k], !matches@.contains(all[k]))
                        },
                ),
            decreases end - line,
        {
            let is_context = !contains_usize(matches, line);
            result.push((line, is_context));
            proof {
                let all = lines_done + range_lines(start, end);
                assert(all[lines_done.len() + (line - start)] == line);
                assert(result@ =~= Seq::new(
                    (lines_done.len() + (line + 1 - start)) as nat,
                    |k: int| (all[k], !matches@.contains(all[k])),
                ));
            }
            line = line + 1;
        }
        proof {
            let all = lines_done + range_lines(start, end);
            assert(all =~= expand_ranges(ranges@.take(ri + 1)));
            assert(result@ =~= Seq::new(all.len(), |k: int| (all[k], !matches@.contains(all[k]))));
            lines_done = all;
        }
        ri = ri + 1;
    }
    assert(ranges@.take(ranges@.len() as int) =~= ranges@);
    result
}

// ---------------------------------------------------------------------------
// Windowing
// ---------------------------------------------------------------------------

/// The matches kept by `--tail`: the last `tail` of them when there are
/// more than `tail` (and `tail` is not 0), else all of them.
pub open spec fn tail_window(matches: Seq<usize>, tail: usize) -> Seq<usize> {
    if tail > 0 && matches.len() > tail {
        matches.subrange(matches.len() - tail, matches.len() as int)
    } else {
        matches
    }
}

/// The lines to show, with their context flags: the kept matches, widened
/// by the context lines when `context` is given and matches were kept.
pub open spec fn selected_lines_spec(
    matches: Seq<usize>,
    tail: usize,
    context: Option<u32>,
    total: usize,
) -> Seq<(usize, bool)> {
    let w = tail_window(matches, tail);
    match context {
        Some(ctx) if w.len() > 0 => if total == 0 {
            seq![]
        } else {
            expand_context_spec(w, ctx as usize, total)
        },
        _ => Seq::new(w.len(), |k: int| (w[k], false)),
    }
}

/// Applies `--tail` and `--context` to the matching line numbers.
pub fn select_lines(matches: Vec<usize>, tail: usize, context: Option<u32>, total: usize) -> (r:
    Vec<(usize, bool)>)
    requires
        forall|i: int| 0 <= i < matches@.len() ==> #[trigger] matches@[i] < total,
        context is Some ==> total + context->0 <= usize::MAX,
    ensures
        r@ == selected_lines_spec(matches@, tail, context, total),
{
    let windowed: Vec<usize> = if tail > 0 && matches.len() > tail {
        crate::text::slice_suffix(matches.as_slice(), matches.len() - tail)
    } else {
        matches
    };
    let ghost w = windowed@;
    match context {
        Some(ctx) if windowed.len() > 0 => {
            assert forall|i: int| 0 <= i < w.len() implies #[trigger] w[i] + ctx + 1 <= usize::MAX by {
            }
            expand_context(windowed.as_slice(), ctx, total)
        },
        _ => {
            let mut out: Vec<(usize, bool)> = Vec::new();
            let mut i: usize = 0;
            while i < windowed.len()
                invariant
                    i <= w.len(),
                    windowed@ == w,
                    out@ == Seq::new(i as nat, |k: int| (w[k], false)),
                decreases windowed.len() - i,
            {
                out.push((windowed[i], false));
                assert(out@ =~= Seq::new((i + 1) as nat, |k: int| (w[k], false)));
                i = i + 1;
            }
            out
        },
    }
}

/// The error a search's pattern gives: a `--regex` pattern that does not
/// compile; `None` for any other pattern, or none.
pub open spec fn pattern_error(params: SearchParams) -> Option<Seq<char>> {
    match params.grep {
        Some(p) => if params.regex && !regex_valid(p@) {
            Some("invalid regex '"@ + p@ + "': "@ + regex_error_text(p@))
        } else {
            None
        },
        None => None,
    }
}

/// The lines a search keeps before `--tail` and `--context`: with a
/// pattern, the numbers of the lines of `window` (lines `start` on) that
/// it accepts; without one, every line from `start` to `total`.
pub open spec fn search_matches(params: SearchParams, window: Seq<Seq<char>>, start: int, total: int) -> Seq<usize> {
    match params.grep {
        Some(p) => accepted_numbers(
            window,
            if params.regex { MatchMode::Regex(p) } else { MatchMode::Substring(p) },
            start,
        ),
        None => Seq::new(if total > start { (total - start) as nat } else { 0 }, |k: int| (start + k) as usize),
    }
}

/// The lines `[start, total)`, in order.
fn line_range(start: usize, total: usize) -> (r: Vec<usize>)
    ensures
        r@ == Seq::new(if total > start { (total - start) as nat } else { 0 }, |k: int| (start + k) as usize),
{
    let mut out: Vec<usize> = Vec::new();
    let mut n = start;
    while n < total
        invariant
            start <= n,
            n <= total || n == start,
            out@ == Seq::new((n - start) as nat, |k: int| (start + k) as usize),
        decreases total - n,
    {
        out.push(n);
        assert(out@ =~= Seq::new((n + 1 - start) as nat, |k: int| (start + k) as usize));
        n = n + 1;
    }
    assert(out@ =~= Seq::new(if total > start { (total - start) as nat } else { 0 }, |k: int| (start + k) as usize));
    out
}

/// The lines one process's search shows, each with its context flag. The
/// pattern is checked first (its error wins), then the `--since` start
/// line, given as `since_start`, is taken (its error next); `window`
/// holds the log lines from that start on, which a pattern is matched
/// against. The matching lines then go through `--tail` and `--context`
/// ([`select_lines`]).
pub fn search_selection(
    params: &SearchParams,
    total: usize,
    since_start: Result<usize, String>,
    window: &Vec<String>,
) -> (r: Result<Vec<(usize, bool)>, String>)
    requires
        since_start matches Ok(s) ==> window@.len() == 0 || s + window@.len() <= total,
        params.context matches Some(c) ==> total + c <= usize::MAX,
    ensures
        match pattern_error(*params) {
            Some(e) => r matches Err(m) && m@ == e,
            None => match since_start {
                Err(e) => r matches Err(m) && m@ == e@,
                Ok(s) => r matches Ok(sel) && sel@ == selected_lines_spec(
                    search_matches(*params, window.deep_view(), s as int, total as int),
                    params.tail,
                    params.context,
                    total,
                ),
            },
        },
{
    let matcher = match params.match_mode() {
        Ok(m) => m,
        Err(e) => {
            return Err(e);
        },
    };
    let start = match since_start {
        Ok(s) => s,
        Err(e) => {
            return Err(e);
        },
    };
    let matches: Vec<usize> = match &matcher {
        Some(m) => {
            let found = matching_line_numbers(window, m, start);
            proof {
                lemma_accepted_numbers_bounds(window.deep_view(), *m, start as int);
                let p = params.grep->0;
                let q = if params.regex { MatchMode::Regex(p) } else { MatchMode::Substring(p) };
                lemma_accepted_numbers_same(window.deep_view(), *m, q, start as int);
            }
            found
        },
        None => line_range(start, total),
    };
    Ok(select_lines(matches, params.tail, params.context, total))
}

/// The results of one process: each selected line with its number and
/// context flag, and the stream and text read for it (where fewer lines
/// were read than selected, the rest are empty lines of the searched
/// stream, stderr for `--stderr` and else stdout).
pub fn assemble_result(
    process: &str,
    selected: &Vec<(usize, bool)>,
    read: &Vec<(LineSource, String)>,
    stream: StreamMode,
) -> (r: SearchResult)
    ensures
        r.process@ == process@,
        r.lines@.len() == selected@.len(),
        forall|i: int| 0 <= i < selected@.len() ==> {
            let l = #[trigger] r.lines@[i];
            &&& l.line_number == selected@[i].0
            &&& l.is_context == selected@[i].1
            &&& if i < read@.len() {
                l.source == read@[i].0 && l.text@ == read@[i].1@
            } else {
                l.source == (if stream == StreamMode::Stderr { LineSource::Stderr } else { LineSource::Stdout })
                    && l.text@.len() == 0
            }
        },
{
    let fallback = match stream {
        StreamMode::Stderr => LineSource::Stderr,
        _ => LineSource::Stdout,
    };
    let mut lines: Vec<SearchLine> = Vec::new();
    let mut i: usize = 0;
    while i < selected.len()
        invariant
            i <= selected@.len(),
            fallback == (if stream == StreamMode::Stderr { LineSource::Stderr } else { LineSource::Stdout }),
            lines@.len() == i,
            forall|k: int| 0 <= k < i ==> {
                let l = #[trigger] lines@[k];
                &&& l.line_number == selected@[k].0
                &&& l.is_context == selected@[k].1
                &&& if k < read@.len() {
                    l.source == read@[k].0 && l.text@ == read@[k].1@
                } else {
                    l.source == fallback && l.text@.len() == 0
                }
            },
        decreases selected.len() - i,
    {
        let (n, ctx) = selected[i];
        let (src, text) = if i < read.len() {
            (read[i].0, read[i].1.clone())
        } else {
            (fallback, String::new())
        };
        let ghost before = lines@;
        lines.push(SearchLine { line_number: n, source: src, text, is_context: ctx });
        proof {
            assert forall|k: int| 0 <= k < i + 1 implies {
                let l = #[trigger] lines@[k];
                &&& l.line_number == selected@[k].0
                &&& l.is_context == selected@[k].1
                &&& if k < read@.len() {
                    l.source == read@[k].0 && l.text@ == read@[k].1@
                } else {
                    l.source == fallback && l.text@.len() == 0
                }
            } by {
                if k < i {
                    assert(lines@[k] == before[k]);
                }
            }
        }
        i = i + 1;
    }
    SearchResult { process: process.to_string(), lines }
}

/// The printed lines of the results of one process: each text, prefixed
/// with `[process] ` when several processes are shown, and a `--` line
/// between lines whose numbers are not adjacent.
pub open spec fn result_text(r: SearchResult, multi: bool, n: int) -> Seq<Seq<char>>
    decreases n,
{
    if n <= 0 {
        Seq::empty()
    } else {
        let prev = result_text(r, multi, n - 1);
        let l = r.lines@[n - 1];
        let sep = if n >= 2 && l.line_number > r.lines@[n - 2].line_number + 1 { seq!["--"@] } else { Seq::empty() };
        let text = if multi { "["@ + r.process@ + "] "@ + l.text@ } else { l.text@ };
        prev + sep + seq![text]
    }
}

/// The printed lines of all results: those of each process with lines, an
/// empty line before each but the first result when several processes are
/// shown.
pub open spec fn results_text(rs: Seq<SearchResult>, n: int) -> Seq<Seq<char>>
    decreases n,
{
    if n <= 0 {
        Seq::empty()
    } else {
        let prev = results_text(rs, n - 1);
        let r = rs[n - 1];
        let multi = rs.len() > 1;
        if r.lines@.len() == 0 {
            prev
        } else {
            prev + (if multi && n - 1 > 0 { seq![Seq::<char>::empty()] } else { Seq::empty() })
                + result_text(r, multi, r.lines@.len() as int)
        }
    }
}

fn result_lines(r: &SearchResult, multi: bool, out: &mut Vec<String>)
    ensures
        final(out).deep_view() == old(out).deep_view() + result_text(*r, multi, r.lines@.len() as int),
{
    let ghost start = out.deep_view();
    let mut i: usize = 0;
    while i < r.lines.len()
        invariant
            i <= r.lines@.len(),
            out.deep_view() == start + result_text(*r, multi, i as int),
        decreases r.lines.len() - i,
    {
        let ghost before = out.deep_view();
        let l = &r.lines[i];
        if i >= 1 && l.line_number > r.lines[i - 1].line_number && l.line_number - r.lines[i - 1].line_number > 1 {
            out.push("--".to_string());
        }
        let mut text = String::new();
        if multi {
            text.append("[");
            text.append(r.process.as_str());
            text.append("] ");
        }
        text.append(l.text.as_str());
        out.push(text);
        proof {
            let sep = if i >= 1 && l.line_number > r.lines@[i - 1].line_number + 1 { seq!["--"@] } else { Seq::<Seq<char>>::empty() };
            assert(out.deep_view() =~= before + sep + seq![text@]);
            assert(result_text(*r, multi, i + 1) =~= result_text(*r, multi, i as int) + sep + seq![text@]);
        }
        i = i + 1;
    }
}

/// The lines printed for search results in text form.
pub fn format_results_text(results: &Vec<SearchResult>) -> (r: Vec<String>)
    ensures
        r.deep_view() == results_text(results@, results@.len() as int),
{
    let multi = results.len() > 1;
    let mut out: Vec<String> = Vec::new();
    let mut i: usize = 0;
    while i < results.len()
        invariant
            i <= results@.len(),
            multi == (results@.len() > 1),
            out.deep_view() == results_text(results@, i as int),
        decreases results.len() - i,
    {
        let r = &results[i];
        if r.lines.len() > 0 {
            if multi && i > 0 {
                let ghost b = out.deep_view();
                out.push(String::new());
                assert(out.deep_view() =~= b + seq![Seq::<char>::empty()]);
            }
            let ghost b2 = out.deep_view();
            result_lines(r, multi, &mut out);
            assert(out.deep_view() =~= results_text(results@, i + 1));
        }
        i = i + 1;
    }
    out
}

/// The stream name of a line in JSON output.
pub fn source_name(source: LineSource) -> (r: &'static str)
    ensures
        r@ == match source {
            LineSource::Stdout => "stdout"@,
            LineSource::Stderr => "stderr"@,
        },
{
    match source {
        LineSource::Stdout => "stdout",
        LineSource::Stderr => "stderr",
    }
}

} // verus!
