//! The decisions of `logs`: which argument combinations are refused, what
//! follow mode warns of, which processes have logs, and how lines print.

use vstd::prelude::*;
use crate::keyed::has_key;
use crate::text::str_eq;

verus! {

broadcast use vstd::string::group_string_axioms;

/// Refuses `--context` and `--regex` without `--grep`.
pub fn check_log_args(has_context: bool, has_grep: bool, regex: bool) -> (r: Result<(), String>)
    ensures
        match r {
            Ok(()) => (has_context ==> has_grep) && (regex ==> has_grep),
            Err(m) => if has_context && !has_grep {
                m@ == "--context requires --grep"@
            } else {
                regex && !has_grep && m@ == "--regex requires --grep"@
            },
        },
{
    if has_context && !has_grep {
        return Err("--context requires --grep".to_string());
    }
    if regex && !has_grep {
        return Err("--regex requires --grep".to_string());
    }
    Ok(())
}

/// The exit code of a search of one target's logs: 1 where the search
/// failed, 2 where the target has no logs, else 0.
pub fn search_exit_code(succeeded: bool, has_logs: bool) -> (r: i32)
    ensures
        r == (if !succeeded { 1i32 } else if !has_logs { 2i32 } else { 0i32 }),
{
    if !succeeded {
        1
    } else if !has_logs {
        2
    } else {
        0
    }
}

/// The warnings of follow mode: `--since` and `--context` are ignored.
pub fn follow_warnings(has_since: bool, has_context: bool) -> (r: Vec<String>)
    ensures
        r.deep_view() == (if has_since { seq!["warning: --since is ignored in follow mode"@] } else { Seq::empty() })
            + (if has_context { seq!["warning: --context is ignored in follow mode"@] } else { Seq::empty() }),
{
    let mut out: Vec<String> = Vec::new();
    if has_since {
        out.push("warning: --since is ignored in follow mode".to_string());
    }
    let ghost a = out.deep_view();
    if has_context {
        out.push("warning: --context is ignored in follow mode".to_string());
    }
    assert(out.deep_view() =~= (if has_since { seq!["warning: --since is ignored in follow mode"@] } else { Seq::empty() })
        + (if has_context { seq!["warning: --context is ignored in follow mode"@] } else { Seq::empty() }));
    out
}

/// The process whose log a file name is: the name without `.stdout` or
/// `.stderr`.
pub open spec fn log_owner(file_name: Seq<char>) -> Option<Seq<char>> {
    if file_name.len() >= 7 && file_name.subrange(file_name.len() - 7, file_name.len() as int) == ".stdout"@ {
        Some(file_name.subrange(0, file_name.len() - 7))
    } else if file_name.len() >= 7 && file_name.subrange(file_name.len() - 7, file_name.len() as int) == ".stderr"@ {
        Some(file_name.subrange(0, file_name.len() - 7))
    } else {
        None
    }
}

/// The process a log file belongs to.
pub fn log_owner_of(file_name: &str) -> (r: Option<String>)
    ensures
        match log_owner(file_name@) {
            Some(n) => r matches Some(x) && x@ == n,
            None => r is None,
        },
{
    let cs = crate::text::chars_of(file_name);
    let n = cs.len();
    if n >= 7 {
        let tail = crate::text::substring(file_name, n - 7, n);
        if str_eq(tail.as_str(), ".stdout") || str_eq(tail.as_str(), ".stderr") {
            return Some(crate::text::substring(file_name, 0, n - 7));
        }
    }
    None
}

/// Whether some string of `v` is `s`.
pub open spec fn named_in(v: Seq<String>, s: Seq<char>) -> bool {
    exists|i: int| 0 <= i < v.len() && v[i]@ == s
}

/// Whether one of the first `k` file names is a log of `s`.
pub open spec fn owner_in(files: Seq<String>, k: int, s: Seq<char>) -> bool {
    exists|m: int| 0 <= m < k && log_owner(files[m]@) == Some(s)
}

/// The processes that have logs among the files of a log directory, each
/// once, in order of first appearance.
pub fn log_process_names(file_names: &Vec<String>) -> (r: Vec<String>)
    ensures
        forall|i: int, j: int| 0 <= i < j < r@.len() ==> r@[i]@ != r@[j]@,
        forall|s: Seq<char>| #![trigger named_in(r@, s)] #![trigger owner_in(file_names@, file_names@.len() as int, s)]
            named_in(r@, s) <==> owner_in(file_names@, file_names@.len() as int, s),
{
    let mut out: Vec<String> = Vec::new();
    let mut k: usize = 0;
    while k < file_names.len()
        invariant
            k <= file_names@.len(),
            forall|i: int, j: int| 0 <= i < j < out@.len() ==> out@[i]@ != out@[j]@,
            forall|s: Seq<char>| #![trigger named_in(out@, s)] #![trigger owner_in(file_names@, k as int, s)]
                named_in(out@, s) <==> owner_in(file_names@, k as int, s),
        decreases file_names.len() - k,
    {
        if let Some(n) = log_owner_of(file_names[k].as_str()) {
            if !contains_name(&out, n.as_str()) {
                let ghost before = out@;
                out.push(n);
                proof {
                    assert forall|s: Seq<char>| #![trigger named_in(out@, s)] #![trigger owner_in(file_names@, k + 1, s)]
                        named_in(out@, s) <==> owner_in(file_names@, k + 1, s) by {
                        if named_in(out@, s) {
                            let i = choose|i: int| 0 <= i < out@.len() && out@[i]@ == s;
                            if i < before.len() {
                                assert(before[i] == out@[i]);
                                assert(named_in(before, s));
                                assert(owner_in(file_names@, k as int, s));
                                let m = choose|m: int| 0 <= m < k && log_owner(file_names@[m]@) == Some(s);
                                assert(0 <= m < k + 1 && log_owner(file_names@[m]@) == Some(s));
                            } else {
                                assert(log_owner(file_names@[k as int]@) == Some(s));
                            }
                        }
                        if owner_in(file_names@, k + 1, s) {
                            let m = choose|m: int| 0 <= m < k + 1 && log_owner(file_names@[m]@) == Some(s);
                            if m < k {
                                assert(owner_in(file_names@, k as int, s));
                                assert(named_in(before, s));
                                let i = choose|i: int| 0 <= i < before.len() && before[i]@ == s;
                                assert(out@[i] == before[i]);
                            } else {
                                assert(out@[before.len() as int]@ == s);
                            }
                        }
                    }
                }
            } else {
                proof {
                    assert forall|s: Seq<char>| #![trigger named_in(out@, s)] #![trigger owner_in(file_names@, k + 1, s)]
                        named_in(out@, s) <==> owner_in(file_names@, k + 1, s) by {
                        if exists|m: int| 0 <= m < k + 1 && log_owner(file_names@[m]@) == Some(s) {
                            let m = choose|m: int| 0 <= m < k + 1 && log_owner(file_names@[m]@) == Some(s);
                            if m == k {
                                assert(exists|i: int| 0 <= i < out@.len() && out@[i]@ == n@);
                            }
                        }
                    }
                }
            }
        } else {
            proof {
                assert forall|s: Seq<char>| #![trigger named_in(out@, s)] #![trigger owner_in(file_names@, k + 1, s)]
                    named_in(out@, s) <==> owner_in(file_names@, k + 1, s) by {
                    if exists|m: int| 0 <= m < k + 1 && log_owner(file_names@[m]@) == Some(s) {
                        let m = choose|m: int| 0 <= m < k + 1 && log_owner(file_names@[m]@) == Some(s);
                        assert(m < k);
                    }
                }
            }
        }
        k = k + 1;
    }
    out
}

fn contains_name(v: &Vec<String>, n: &str) -> (r: bool)
    ensures
        r == exists|i: int| 0 <= i < v@.len() && v@[i]@ == n@,
{
    let mut i: usize = 0;
    while i < v.len()
        invariant
            i <= v@.len(),
            forall|j: int| 0 <= j < i ==> v@[j]@ != n@,
        decreases v.len() - i,
    {
        if str_eq(v[i].as_str(), n) {
            return true;
        }
        i = i + 1;
    }
    false
}

/// A followed line as printed: with `[process] ` in front when several
/// processes are followed.
pub fn follow_line_text(process: &str, line: &str, show_prefix: bool) -> (r: String)
    ensures
        r@ == (if show_prefix { "["@ + process@ + "] "@ + line@ } else { line@ }),
{
    let mut s = String::new();
    if show_prefix {
        s.append("[");
        s.append(process);
        s.append("] ");
    }
    s.append(line);
    s
}

/// The last `n` of the lines (all of them when there are fewer).
pub fn keep_last(lines: Vec<String>, n: usize) -> (r: Vec<String>)
    ensures
        r@ == (if lines@.len() > n { lines@.subrange(lines@.len() - n, lines@.len() as int) } else { lines@ }),
{
    if lines.len() > n {
        let mut out: Vec<String> = Vec::new();
        let start = lines.len() - n;
        let mut rest = lines;
        let ghost src = rest@;
        let mut tail = rest.split_off(start);
        out.append(&mut tail);
        assert(out@ =~= src.subrange(src.len() - n, src.len() as int));
        out
    } else {
        lines
    }
}

} // verus!
