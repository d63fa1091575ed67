//! The text of `status`: a table of the managed processes.

use vstd::prelude::*;
use crate::protocol::{ProcessInfo, ProcessState};
use crate::text::{
    decimal, first_index_of, is_digit, lemma_decimal_reads_back, lemma_first_index_of, parse_u64_spec,
    push_decimal, push_signed_decimal, signed_decimal,
};

verus! {

broadcast use vstd::string::group_string_axioms;

/// `n` spaces.
pub open spec fn spaces(n: int) -> Seq<char>
    decreases n,
{
    if n <= 0 { Seq::empty() } else { spaces(n - 1).push(' ') }
}

/// `s` padded on the right with spaces to `width` characters, as the
/// format `{:<width}` does (longer text is left as it is).
pub open spec fn pad(s: Seq<char>, width: int) -> Seq<char> {
    s + spaces(width - s.len())
}

/// Appends `s` padded to `width` characters.
pub fn push_padded(out: &mut String, s: &str, width: usize)
    ensures
        final(out)@ == old(out)@ + pad(s@, width as int),
{
    out.append(s);
    let n = crate::text::chars_of(s).len();
    let mut k = n;
    let ghost base = old(out)@ + s@;
    assert(out@ == base + spaces(0));
    while k < width
        invariant
            n == s@.len(),
            n <= k,
            k <= width || k == n,
            out@ == base + spaces(k - n),
        decreases width - k,
    {
        out.append(" ");
        proof {
            reveal_strlit(" ");
            assert(spaces(k + 1 - n) =~= spaces(k - n).push(' '));
            assert(out@ =~= base + spaces(k + 1 - n));
        }
        k = k + 1;
    }
    proof {
        if width < n {
            assert(k == n);
            assert(spaces(k - n) =~= Seq::<char>::empty());
            assert(spaces(width - s@.len()) =~= Seq::<char>::empty());
        }
    }
}

/// An uptime as `status` shows it: seconds under a minute (`42s`),
/// minutes and seconds under an hour (`5m3s`), else hours and minutes
/// (`2h7m`).
pub open spec fn uptime_text(secs: u64) -> Seq<char> {
    if secs < 60 {
        decimal(secs as nat) + "s"@
    } else if secs < 3600 {
        decimal((secs / 60) as nat) + "m"@ + decimal((secs % 60) as nat) + "s"@
    } else {
        decimal((secs / 3600) as nat) + "h"@ + decimal(((secs % 3600) / 60) as nat) + "m"@
    }
}

/// Formats an uptime.
pub fn format_uptime(secs: u64) -> (r: String)
    ensures
        r@ == uptime_text(secs),
{
    let mut s = String::new();
    if secs < 60 {
        push_decimal(&mut s, secs);
        s.append("s");
    } else if secs < 3600 {
        push_decimal(&mut s, secs / 60);
        s.append("m");
        push_decimal(&mut s, secs % 60);
        s.append("s");
    } else {
        push_decimal(&mut s, secs / 3600);
        s.append("h");
        push_decimal(&mut s, (secs % 3600) / 60);
        s.append("m");
    }
    s
}

/// The state column of a process.
pub open spec fn state_column(s: ProcessState) -> Seq<char> {
    match s {
        ProcessState::Running => "running"@,
        ProcessState::Exited => "exited"@,
        ProcessState::Failed => "FAILED"@,
        ProcessState::Unknown => "unknown"@,
    }
}

/// Which optional columns a table shows: restarts where some process has
/// a policy or a restart count, watch where some process is watched, URL
/// where some process has a URL.
pub open spec fn columns(ps: Seq<ProcessInfo>) -> (bool, bool, bool) {
    (
        exists|i: int| 0 <= i < ps.len() && (ps[i].restart_policy is Some || ps[i].restart_count is Some),
        exists|i: int| 0 <= i < ps.len() && ps[i].watched == Some(true),
        exists|i: int| 0 <= i < ps.len() && ps[i].url is Some,
    )
}

/// The header line of the table.
pub open spec fn header_text(restarts: bool, watch: bool, urls: bool) -> Seq<char> {
    pad("NAME"@, 12) + " "@ + pad("PID"@, 8) + " "@ + pad("STATE"@, 10) + " "@ + pad("EXIT"@, 6)
        + (if restarts { " "@ + pad("RESTARTS"@, 10) } else { Seq::empty() })
        + (if watch { " "@ + pad("WATCH"@, 6) } else { Seq::empty() })
        + (if urls { " "@ + pad("URL"@, 30) } else { Seq::empty() })
        + " UPTIME"@
}

/// The restarts column of a process: `count/max`, `count`, or `-`.
pub open spec fn restarts_column(p: ProcessInfo) -> Seq<char> {
    match (p.restart_count, p.max_restarts) {
        (Some(c), Some(m)) => decimal(c as nat) + "/"@ + decimal(m as nat),
        (Some(c), None) => decimal(c as nat),
        _ => "-"@,
    }
}

/// The first four columns of a row: name, PID, state and exit code.
pub open spec fn base_columns(p: ProcessInfo) -> Seq<char> {
    pad(p.name@, 12) + " "@ + pad(decimal(p.pid as nat), 8) + " "@ + pad(state_column(p.state), 10) + " "@
        + pad(match p.exit_code { Some(c) => signed_decimal(c as int), None => "-"@ }, 6)
}

/// The optional columns of a row.
pub open spec fn optional_columns(p: ProcessInfo, restarts: bool, watch: bool, urls: bool) -> Seq<char> {
    (if restarts { " "@ + pad(restarts_column(p), 10) } else { Seq::empty() })
        + (if watch { " "@ + pad(if p.watched == Some(true) { "*"@ } else { "-"@ }, 6) } else { Seq::empty() })
        + (if urls { " "@ + pad(match p.url { Some(u) => u@, None => "-"@ }, 30) } else { Seq::empty() })
}

/// The row of one process.
pub open spec fn row_text(p: ProcessInfo, restarts: bool, watch: bool, urls: bool) -> Seq<char> {
    base_columns(p) + optional_columns(p, restarts, watch, urls) + " "@ + match p.uptime_secs {
        Some(u) => uptime_text(u),
        None => "-"@,
    }
}

fn state_str(s: ProcessState) -> (r: &'static str)
    ensures
        r@ == state_column(s),
{
    match s {
        ProcessState::Running => "running",
        ProcessState::Exited => "exited",
        ProcessState::Failed => "FAILED",
        ProcessState::Unknown => "unknown",
    }
}

fn any_column(ps: &Vec<ProcessInfo>) -> (r: (bool, bool, bool))
    ensures
        r == columns(ps@),
{
    let mut a = false;
    let mut b = false;
    let mut c = false;
    let mut i: usize = 0;
    while i < ps.len()
        invariant
            i <= ps@.len(),
            a == exists|j: int| 0 <= j < i && (ps@[j].restart_policy is Some || ps@[j].restart_count is Some),
            b == exists|j: int| 0 <= j < i && ps@[j].watched == Some(true),
            c == exists|j: int| 0 <= j < i && ps@[j].url is Some,
        decreases ps.len() - i,
    {
        let p = &ps[i];
        if p.restart_policy.is_some() || p.restart_count.is_some() {
            a = true;
        }
        if p.watched == Some(true) {
            b = true;
        }
        if p.url.is_some() {
            c = true;
        }
        i = i + 1;
    }
    (a, b, c)
}

fn base_line(p: &ProcessInfo) -> (r: String)
    ensures
        r@ == base_columns(*p),
{
    let mut line = String::new();
    push_padded(&mut line, p.name.as_str(), 12);
    line.append(" ");
    let mut pid = String::new();
    push_decimal(&mut pid, p.pid as u64);
    push_padded(&mut line, pid.as_str(), 8);
    line.append(" ");
    push_padded(&mut line, state_str(p.state), 10);
    line.append(" ");
    let mut exit = String::new();
    match p.exit_code {
        Some(c) => push_signed_decimal(&mut exit, c as i64),
        None => exit.append("-"),
    }
    push_padded(&mut line, exit.as_str(), 6);
    assert(line@ =~= base_columns(*p));
    line
}

fn restarts_line(p: &ProcessInfo) -> (r: String)
    ensures
        r@ == " "@ + pad(restarts_column(*p), 10),
{
    let mut line = String::new();
    line.append(" ");
    let mut rs = String::new();
    match (p.restart_count, p.max_restarts) {
        (Some(c), Some(m)) => {
            push_decimal(&mut rs, c as u64);
            rs.append("/");
            push_decimal(&mut rs, m as u64);
        },
        (Some(c), None) => push_decimal(&mut rs, c as u64),
        _ => rs.append("-"),
    }
    push_padded(&mut line, rs.as_str(), 10);
    line
}

fn optional_line(p: &ProcessInfo, restarts: bool, watch: bool, urls: bool) -> (r: String)
    ensures
        r@ == optional_columns(*p, restarts, watch, urls),
{
    let mut line = String::new();
    if restarts {
        let rs = restarts_line(p);
        line.append(rs.as_str());
    }
    let ghost a = line@;
    if watch {
        line.append(" ");
        if p.watched == Some(true) {
            push_padded(&mut line, "*", 6);
        } else {
            push_padded(&mut line, "-", 6);
        }
    }
    let ghost b = line@;
    if urls {
        line.append(" ");
        match &p.url {
            Some(u) => push_padded(&mut line, u.as_str(), 30),
            None => push_padded(&mut line, "-", 30),
        }
    }
    assert(line@ =~= optional_columns(*p, restarts, watch, urls));
    line
}

/// The row of one process.
fn row_line(p: &ProcessInfo, restarts: bool, watch: bool, urls: bool) -> (r: String)
    ensures
        r@ == row_text(*p, restarts, watch, urls),
{
    let mut line = base_line(p);
    let opt = optional_line(p, restarts, watch, urls);
    line.append(opt.as_str());
    line.append(" ");
    match p.uptime_secs {
        Some(u) => {
            let t = format_uptime(u);
            line.append(t.as_str());
        },
        None => line.append("-"),
    }
    assert(line@ =~= row_text(*p, restarts, watch, urls));
    line
}

/// The lines `status` prints: the header, then one row per process.
pub fn status_table(ps: &Vec<ProcessInfo>) -> (r: Vec<String>)
    ensures
        r@.len() == ps@.len() + 1,
        r@[0]@ == header_text(columns(ps@).0, columns(ps@).1, columns(ps@).2),
        forall|i: int| 0 <= i < ps@.len() ==> (#[trigger] r@[i + 1])@ == row_text(ps@[i], columns(ps@).0, columns(ps@).1, columns(ps@).2),
{
    let (restarts, watch, urls) = any_column(ps);
    let mut out: Vec<String> = Vec::new();
    let mut h = String::new();
    push_padded(&mut h, "NAME", 12);
    h.append(" ");
    push_padded(&mut h, "PID", 8);
    h.append(" ");
    push_padded(&mut h, "STATE", 10);
    h.append(" ");
    push_padded(&mut h, "EXIT", 6);
    if restarts {
        h.append(" ");
        push_padded(&mut h, "RESTARTS", 10);
    }
    if watch {
        h.append(" ");
        push_padded(&mut h, "WATCH", 6);
    }
    if urls {
        h.append(" ");
        push_padded(&mut h, "URL", 30);
    }
    h.append(" UPTIME");
    assert(h@ =~= header_text(restarts, watch, urls));
    out.push(h);
    let mut i: usize = 0;
    while i < ps.len()
        invariant
            i <= ps@.len(),
            (restarts, watch, urls) == columns(ps@),
            out@.len() == i + 1,
            out@[0]@ == header_text(restarts, watch, urls),
            forall|k: int| 0 <= k < i ==> (#[trigger] out@[k + 1])@ == row_text(ps@[k], restarts, watch, urls),
        decreases ps.len() - i,
    {
        let line = row_line(&ps[i], restarts, watch, urls);
        let ghost before = out@;
        out.push(line);
        proof {
            assert forall|k: int| 0 <= k < i + 1 implies (#[trigger] out@[k + 1])@ == row_text(ps@[k], restarts, watch, urls) by {
                if k < i {
                    assert(out@[k + 1] == before[k + 1]);
                }
            }
        }
        i = i + 1;
    }
    out
}

/// Read back, the restarts column of a process with a restart count and
/// a limit gives the count, then a `/`, then the limit: the text before
/// its first `/` reads as the count and the text after it as the limit.
/// With only a count the column reads as the count, and without one it is
/// `-`.
pub proof fn lemma_restarts_column_reads_back(p: ProcessInfo)
    ensures
        (p.restart_count, p.max_restarts) matches (Some(c), Some(m)) ==> {
            let col = restarts_column(p);
            first_index_of(col, '/') matches Some(k) && parse_u64_spec(col.take(k)) == Some(c as u64)
                && parse_u64_spec(col.skip(k + 1)) == Some(m as u64)
        },
        (p.restart_count, p.max_restarts) matches (Some(c), None) ==> parse_u64_spec(restarts_column(p)) == Some(
            c as u64,
        ),
        p.restart_count is None ==> restarts_column(p) == "-"@,
{
    match (p.restart_count, p.max_restarts) {
        (Some(c), Some(m)) => {
            let a = decimal(c as nat);
            let b = decimal(m as nat);
            let col = restarts_column(p);
            lemma_decimal_reads_back(c as nat);
            lemma_decimal_reads_back(m as nat);
            reveal_strlit("/");
            assert(col =~= a + "/"@ + b);
            let k = a.len() as int;
            assert(col[k] == '/');
            assert(!is_digit('/'));
            lemma_first_index_of(col, '/');
            match first_index_of(col, '/') {
                Some(i) => {
                    if i < k {
                        assert(col[i] == a[i]);
                        assert(is_digit(a[i]));
                    }
                    assert(i == k);
                },
                None => {
                    assert(col[k] == '/');
                },
            }
            assert(col.take(k) =~= a);
            assert(col.skip(k + 1) =~= b);
            assert(a[0] != '+') by {
                assert(is_digit(a[0]));
            }
            assert(b[0] != '+') by {
                assert(is_digit(b[0]));
            }
        },
        (Some(c), None) => {
            let a = decimal(c as nat);
            lemma_decimal_reads_back(c as nat);
            assert(a[0] != '+') by {
                assert(is_digit(a[0]));
            }
        },
        _ => {},
    }
}

} // verus!
