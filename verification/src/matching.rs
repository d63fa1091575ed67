//! How a line is tested against a pattern: as a substring, or as a regular
//! expression of the `regex` crate.

use vstd::prelude::*;
use crate::text::{contains_seq, str_contains};

verus! {

/// Whether `pattern` is a regular expression that the `regex` crate
/// compiles.
pub uninterp spec fn regex_valid(pattern: Seq<char>) -> bool;

/// The message of the error the `regex` crate gives for `pattern`.
pub uninterp spec fn regex_error_text(pattern: Seq<char>) -> Seq<char>;

/// Whether the regular expression `pattern` matches somewhere in `text`.
pub uninterp spec fn regex_finds(pattern: Seq<char>, text: Seq<char>) -> bool;

/// Compiles `pattern` with `regex::Regex::new`. The contract claims that
/// the call succeeds exactly for the patterns named valid by
/// `regex_valid`, and that a failure carries the error's `Display` text,
/// named `regex_error_text(pattern)`; both depend on the pattern alone.
#[verifier::external_body]
fn regex_check(pattern: &str) -> (r: Result<(), String>)
    ensures
        match r {
            Ok(()) => regex_valid(pattern@),
            Err(m) => !regex_valid(pattern@) && m@ == regex_error_text(pattern@),
        },
{
    match regex::Regex::new(pattern) {
        Ok(_) => Ok(()),
        Err(e) => Err(e.to_string()),
    }
}

/// Compiles the valid `pattern` with `regex::Regex::new` and tests `text`
/// with `Regex::is_match`. The contract claims only that the answer is a
/// function of the pattern and the text, named `regex_finds`.
#[verifier::external_body]
fn regex_is_match(pattern: &str, text: &str) -> (r: bool)
    requires
        regex_valid(pattern@),
    ensures
        r == regex_finds(pattern@, text@),
{
    match regex::Regex::new(pattern) {
        Ok(re) => re.is_match(text),
        Err(_) => false,
    }
}

/// How lines are tested: for a substring, or against a regular expression
/// (held as its pattern, which compiles).
#[derive(Debug, Clone, PartialEq)]
pub enum MatchMode {
    Substring(String),
    Regex(String),
}

impl MatchMode {
    /// Whether a regular expression in the mode compiles.
    pub open spec fn valid(&self) -> bool {
        match self {
            MatchMode::Regex(p) => regex_valid(p@),
            MatchMode::Substring(_) => true,
        }
    }

    /// Whether the mode accepts `line`.
    pub open spec fn accepts(&self, line: Seq<char>) -> bool {
        match self {
            MatchMode::Substring(p) => contains_seq(line, p@),
            MatchMode::Regex(p) => regex_finds(p@, line),
        }
    }

    /// The mode of a pattern: a regular expression when `regex` is set (an
    /// error with the crate's message where it does not compile), else a
    /// substring.
    pub fn new(pattern: &str, regex: bool) -> (r: Result<MatchMode, String>)
        ensures
            match r {
                Ok(m) => m.valid() && (if regex {
                    m matches MatchMode::Regex(p) && p@ == pattern@
                } else {
                    m matches MatchMode::Substring(p) && p@ == pattern@
                }),
                Err(e) => regex && !regex_valid(pattern@) && e@ == regex_error_text(pattern@),
            },
    {
        if regex {
            match regex_check(pattern) {
                Ok(()) => Ok(MatchMode::Regex(pattern.to_string())),
                Err(e) => Err(e),
            }
        } else {
            Ok(MatchMode::Substring(pattern.to_string()))
        }
    }

    /// Whether the mode accepts `line`.
    pub fn matches(&self, line: &str) -> (r: bool)
        requires
            self.valid(),
        ensures
            r == self.accepts(line@),
    {
        match self {
            MatchMode::Substring(p) => str_contains(line, p.as_str()),
            MatchMode::Regex(p) => regex_is_match(p.as_str(), line),
        }
    }
}

/// The lines of `text` as `str::lines` splits them: at each `\n`, with a
/// `\r` before it dropped, and no empty line after a final `\n`.
pub open spec fn text_lines(text: Seq<char>) -> Seq<Seq<char>>
    decreases text.len(),
{
    if text.len() == 0 {
        Seq::empty()
    } else {
        proof {
            crate::text::lemma_first_index_of(text, '\n');
        }
        match crate::text::first_index_of(text, '\n') {
            Some(i) => seq![strip_cr(text.subrange(0, i))] + text_lines(text.subrange(i + 1, text.len() as int)),
            None => seq![strip_cr(text)],
        }
    }
}

/// A line without its final `\r`, if it has one.
pub open spec fn strip_cr(line: Seq<char>) -> Seq<char> {
    if line.len() > 0 && line.last() == '\r' { line.drop_last() } else { line }
}

/// The first of `lines` that `accepts` holds of.
pub open spec fn first_accepted(lines: Seq<Seq<char>>, accepts: spec_fn(Seq<char>) -> bool) -> Option<Seq<char>>
    decreases lines.len(),
{
    if lines.len() == 0 {
        None
    } else if accepts(lines[0]) {
        Some(lines[0])
    } else {
        first_accepted(lines.drop_first(), accepts)
    }
}

/// Splits `text` into lines as `str::lines` does.
pub fn split_lines(text: &str) -> (r: Vec<String>)
    ensures
        r.deep_view() == text_lines(text@),
{
    let cs = crate::text::chars_of(text);
    let mut out: Vec<String> = Vec::new();
    let mut start: usize = 0;
    proof {
        assert(cs@.subrange(0, cs@.len() as int) =~= cs@);
    }
    while start < cs.len()
        invariant
            start <= cs@.len(),
            cs@ == text@,
            out.deep_view() + text_lines(cs@.subrange(start as int, cs@.len() as int)) == text_lines(text@),
        decreases cs.len() - start,
    {
        let ghost rest = cs@.subrange(start as int, cs@.len() as int);
        let tail = crate::text::slice_suffix(cs.as_slice(), start);
        assert(tail@ =~= rest);
        let ghost before = out.deep_view();
        match crate::text::find_char(tail.as_slice(), '\n') {
            Some(i) => {
                let mut end = i;
                if end > 0 && tail[end - 1] == '\r' {
                    end = end - 1;
                }
                let line = crate::text::substring(text, start, start + end);
                proof {
                    assert(text@.subrange(start as int, start + end) =~= strip_cr(rest.subrange(0, i as int)));
                }
                out.push(line);
                proof {
                    assert(out.deep_view() =~= before.push(strip_cr(rest.subrange(0, i as int))));
                    assert(rest.subrange(i + 1, rest.len() as int) =~= cs@.subrange(start + i + 1, cs@.len() as int));
                    assert(before + text_lines(rest) =~= out.deep_view() + text_lines(cs@.subrange(start + i + 1, cs@.len() as int)));
                }
                start = start + i + 1;
            },
            None => {
                let mut end = tail.len();
                if end > 0 && tail[end - 1] == '\r' {
                    end = end - 1;
                }
                let line = crate::text::substring(text, start, start + end);
                proof {
                    assert(text@.subrange(start as int, start + end) =~= strip_cr(rest));
                }
                out.push(line);
                proof {
                    assert(out.deep_view() =~= before.push(strip_cr(rest)));
                    assert(cs@.subrange(cs@.len() as int, cs@.len() as int) =~= Seq::<char>::empty());
                    assert(before + text_lines(rest) =~= out.deep_view() + text_lines(cs@.subrange(cs@.len() as int, cs@.len() as int)));
                }
                start = cs.len();
            },
        }
    }
    proof {
        assert(cs@.subrange(start as int, cs@.len() as int) =~= Seq::<char>::empty());
        assert(out.deep_view() + Seq::<Seq<char>>::empty() =~= out.deep_view());
    }
    out
}

/// The first line of `text` that `mode` accepts.
pub fn first_matching_line(text: &str, mode: &MatchMode) -> (r: Option<String>)
    requires
        mode.valid(),
    ensures
        match first_accepted(text_lines(text@), |l: Seq<char>| mode.accepts(l)) {
            Some(l) => r matches Some(x) && x@ == l,
            None => r is None,
        },
{
    let lines = split_lines(text);
    let mut i: usize = 0;
    assert(lines.deep_view().skip(0) =~= lines.deep_view());
    while i < lines.len()
        invariant
            i <= lines@.len(),
            mode.valid(),
            lines.deep_view() == text_lines(text@),
            first_accepted(lines.deep_view().skip(i as int), |l: Seq<char>| mode.accepts(l)) == first_accepted(text_lines(text@), |l: Seq<char>| mode.accepts(l)),
        decreases lines.len() - i,
    {
        let ghost rest = lines.deep_view().skip(i as int);
        assert(rest[0] == lines@[i as int]@);
        assert(rest.drop_first() =~= lines.deep_view().skip(i + 1));
        if mode.matches(lines[i].as_str()) {
            return Some(lines[i].clone());
        }
        i = i + 1;
    }
    assert(lines.deep_view().skip(i as int) =~= Seq::<Seq<char>>::empty());
    None
}


/// The numbers of the lines that `mode` accepts, where `lines` are those
/// numbered from `first` on.
pub open spec fn accepted_numbers(lines: Seq<Seq<char>>, mode: MatchMode, first: int) -> Seq<usize>
    decreases lines.len(),
{
    if lines.len() == 0 {
        Seq::empty()
    } else {
        let before = accepted_numbers(lines.drop_last(), mode, first);
        if mode.accepts(lines.last()) {
            before.push((first + lines.len() - 1) as usize)
        } else {
            before
        }
    }
}

/// Every number `accepted_numbers` gives lies in `[first, first + lines.len())`,
/// and two modes that accept the same lines give the same numbers.
pub proof fn lemma_accepted_numbers_bounds(lines: Seq<Seq<char>>, mode: MatchMode, first: int)
    requires
        0 <= first,
        first + lines.len() <= usize::MAX,
    ensures
        forall|i: int| 0 <= i < accepted_numbers(lines, mode, first).len() ==>
            first <= #[trigger] accepted_numbers(lines, mode, first)[i] < first + lines.len(),
    decreases lines.len(),
{
    if lines.len() > 0 {
        let before = accepted_numbers(lines.drop_last(), mode, first);
        lemma_accepted_numbers_bounds(lines.drop_last(), mode, first);
        let all = accepted_numbers(lines, mode, first);
        assert forall|i: int| 0 <= i < all.len() implies first <= #[trigger] all[i] < first + lines.len() by {
            if i < before.len() {
                assert(all[i] == before[i]);
            }
        }
    }
}

/// Two modes that accept the same lines give the same numbers.
pub proof fn lemma_accepted_numbers_same(lines: Seq<Seq<char>>, a: MatchMode, b: MatchMode, first: int)
    requires
        forall|l: Seq<char>| a.accepts(l) == b.accepts(l),
    ensures
        accepted_numbers(lines, a, first) == accepted_numbers(lines, b, first),
    decreases lines.len(),
{
    if lines.len() > 0 {
        lemma_accepted_numbers_same(lines.drop_last(), a, b, first);
    }
}

/// The numbers of the lines of a window that `mode` accepts, in order;
/// the window's lines are numbered from `first` on.
pub fn matching_line_numbers(lines: &Vec<String>, mode: &MatchMode, first: usize) -> (r: Vec<usize>)
    requires
        mode.valid(),
        first + lines@.len() <= usize::MAX,
    ensures
        r@ == accepted_numbers(lines.deep_view(), *mode, first as int),
{
    let mut out: Vec<usize> = Vec::new();
    let mut i: usize = 0;
    while i < lines.len()
        invariant
            i <= lines@.len(),
            mode.valid(),
            first + lines@.len() <= usize::MAX,
            out@ == accepted_numbers(lines.deep_view().take(i as int), *mode, first as int),
        decreases lines.len() - i,
    {
        let ghost pre = lines.deep_view().take(i as int);
        assert(lines.deep_view().take(i + 1).drop_last() =~= pre);
        assert(lines.deep_view().take(i + 1).last() == lines@[i as int]@);
        if mode.matches(lines[i].as_str()) {
            out.push(first + i);
        }
        i = i + 1;
    }
    assert(lines.deep_view().take(lines@.len() as int) =~= lines.deep_view());
    out
}

} // verus!
