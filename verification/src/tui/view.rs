//! What the terminal UI shows: the process list, the title and lines of
//! the output pane, its scroll position and the status bar. The drawing
//! itself is left to the caller.

use vstd::prelude::*;
use crate::protocol::{ProcessInfo, ProcessState};
use crate::keyed::{find_key, key_value};
use crate::text::{contains_seq, decimal, push_signed_decimal, signed_decimal, str_contains};
use crate::tui::app::{App, InputMode, LineSource, OutputBuffer, StreamMode, count_in_state, entries_view, lines_from, scroll_offset, selected_process};

verus! {

broadcast use vstd::string::group_string_axioms;

/// How a line or list item is coloured.
#[derive(Debug, Clone, Copy, PartialEq, Eq, Structural)]
pub enum Tone {
    /// Plain text (stdout lines).
    Plain,
    /// Yellow (stderr lines).
    Warning,
    /// Grey (placeholders, processes that exited cleanly).
    Dim,
    /// Green (running processes).
    Good,
    /// Red (processes that failed).
    Bad,
}

/// The item of a process in the list: a mark, its name, and for a failed
/// exit the exit code.
pub open spec fn list_item(p: ProcessInfo) -> (Seq<char>, Tone) {
    match p.state {
        ProcessState::Running => ("● "@ + p.name@, Tone::Good),
        ProcessState::Exited => if p.exit_code == Some(0i32) {
            ("✓ "@ + p.name@, Tone::Dim)
        } else {
            ("✗ "@ + p.name@ + match p.exit_code {
                Some(c) => " ("@ + signed_decimal(c as int) + ")"@,
                None => Seq::empty(),
            }, Tone::Bad)
        },
        ProcessState::Failed => ("✗ "@ + p.name@ + match p.exit_code {
            Some(c) => " ("@ + signed_decimal(c as int) + ")"@,
            None => Seq::empty(),
        }, Tone::Bad),
        ProcessState::Unknown => ("? "@ + p.name@, Tone::Dim),
    }
}

fn list_item_of(p: &ProcessInfo) -> (r: (String, Tone))
    ensures
        r.0@ == list_item(*p).0,
        r.1 == list_item(*p).1,
{
    let mut s = String::new();
    let bad = match p.state {
        ProcessState::Running => {
            s.append("● ");
            s.append(p.name.as_str());
            return (s, Tone::Good);
        },
        ProcessState::Exited => p.exit_code != Some(0i32),
        ProcessState::Failed => true,
        ProcessState::Unknown => {
            s.append("? ");
            s.append(p.name.as_str());
            return (s, Tone::Dim);
        },
    };
    if !bad {
        s.append("✓ ");
        s.append(p.name.as_str());
        return (s, Tone::Dim);
    }
    s.append("✗ ");
    s.append(p.name.as_str());
    match p.exit_code {
        Some(c) => {
            s.append(" (");
            push_signed_decimal(&mut s, c as i64);
            s.append(")");
        },
        None => {},
    }
    (s, Tone::Bad)
}

/// The items of the process list, with whether each is the selected one.
pub fn process_list_items(app: &App) -> (r: Vec<(String, Tone, bool)>)
    ensures
        r@.len() == app.processes@.len(),
        forall|i: int| 0 <= i < r@.len() ==> {
            let (t, tone, sel) = #[trigger] r@[i];
            &&& t@ == list_item(app.processes@[i]).0
            &&& tone == list_item(app.processes@[i]).1
            &&& sel == (i == app.selected)
        },
{
    let mut out: Vec<(String, Tone, bool)> = Vec::new();
    let mut i: usize = 0;
    while i < app.processes.len()
        invariant
            i <= app.processes@.len(),
            out@.len() == i,
            forall|k: int| 0 <= k < i ==> {
                let (t, tone, sel) = #[trigger] out@[k];
                &&& t@ == list_item(app.processes@[k]).0
                &&& tone == list_item(app.processes@[k]).1
                &&& sel == (k == app.selected)
            },
        decreases app.processes.len() - i,
    {
        let (t, tone) = list_item_of(&app.processes[i]);
        let ghost before = out@;
        out.push((t, tone, i == app.selected));
        proof {
            assert forall|k: int| 0 <= k < i + 1 implies {
                let (t, tone, sel) = #[trigger] out@[k];
                &&& t@ == list_item(app.processes@[k]).0
                &&& tone == list_item(app.processes@[k]).1
                &&& sel == (k == app.selected)
            } by {
                if k < i {
                    assert(out@[k] == before[k]);
                }
            }
        }
        i = i + 1;
    }
    out
}

/// The name of a stream view in the title.
pub open spec fn mode_label(m: StreamMode) -> Seq<char> {
    match m {
        StreamMode::Stdout => "stdout"@,
        StreamMode::Stderr => "stderr"@,
        StreamMode::Both => "all"@,
    }
}

/// The title of the output pane: the selected process (or `(none)`), the
/// stream view, a paused mark, and the filter being typed or in force.
pub open spec fn title_text(app: &App) -> Seq<char> {
    " Output: "@ + match selected_process(app) {
        Some(n) => n,
        None => "(none)"@,
    } + " ("@ + mode_label(app.stream_mode) + ")"@ + (if app.paused { " [PAUSED]"@ } else { Seq::empty() })
        + (if app.input_mode == InputMode::FilterInput {
        " /"@ + app.filter_buf@
    } else {
        match app.filter {
            Some(p) => " [filter: "@ + p@ + "]"@,
            None => Seq::empty(),
        }
    }) + "  "@
}

/// The title of the output pane.
pub fn output_title(app: &App) -> (r: String)
    ensures
        r@ == title_text(app),
{
    let mut s = String::new();
    s.append(" Output: ");
    match app.selected_name() {
        Some(n) => s.append(n),
        None => s.append("(none)"),
    }
    s.append(" (");
    match app.stream_mode {
        StreamMode::Stdout => s.append("stdout"),
        StreamMode::Stderr => s.append("stderr"),
        StreamMode::Both => s.append("all"),
    }
    s.append(")");
    if app.paused {
        s.append(" [PAUSED]");
    }
    if app.input_mode == InputMode::FilterInput {
        s.append(" /");
        s.append(app.filter_buf.as_str());
    } else {
        match &app.filter {
            Some(p) => {
                s.append(" [filter: ");
                s.append(p.as_str());
                s.append("]");
            },
            None => {},
        }
    }
    s.append("  ");
    s
}

/// The tone of a line of a stream.
pub open spec fn line_tone(src: LineSource) -> Tone {
    match src {
        LineSource::Stdout => Tone::Plain,
        LineSource::Stderr => Tone::Warning,
    }
}

/// The lines of the output pane: the hot lines of the selected process in
/// the stream view, those containing the filter where one is in force,
/// stderr lines in yellow; `No output yet` in grey when the process has no
/// buffer.
pub open spec fn pane_lines(app: &App) -> Seq<(Seq<char>, Tone)> {
    let name = match selected_process(app) {
        Some(n) => n,
        None => "(none)"@,
    };
    match key_value(app.buffers@, name) {
        None => seq![("No output yet"@, Tone::Dim)],
        Some(b) => {
            let es = crate::tui::app::stream_entries(b@, app.stream_mode);
            let kept = match app.filter {
                Some(p) => es.filter(|e: (LineSource, Seq<char>)| contains_seq(e.1, p@)),
                None => es,
            };
            kept.map_values(|e: (LineSource, Seq<char>)| (e.1, line_tone(e.0)))
        },
    }
}

/// The lines of the output pane.
pub fn output_pane_lines(app: &App) -> (r: Vec<(String, Tone)>)
    ensures
        r@.map_values(|e: (String, Tone)| (e.0@, e.1)) == pane_lines(app),
{
    let name: String = match app.selected_name() {
        Some(n) => n.to_string(),
        None => "(none)".to_string(),
    };
    match find_key(&app.buffers, name.as_str()) {
        None => {
            let v = vec![("No output yet".to_string(), Tone::Dim)];
            assert(v@.map_values(|e: (String, Tone)| (e.0@, e.1)) =~= seq![("No output yet"@, Tone::Dim)]);
            v
        },
        Some(i) => {
            let entries = crate::tui::app::stream_view_lines(&app.buffers[i].1, app.stream_mode);
            let ghost es = entries_view(entries@);
            let mut out: Vec<(String, Tone)> = Vec::new();
            let mut k: usize = 0;
            while k < entries.len()
                invariant
                    k <= entries@.len(),
                    es == entries_view(entries@),
                    out@.map_values(|e: (String, Tone)| (e.0@, e.1)) == (match app.filter {
                        Some(f) => es.take(k as int).filter(|e: (LineSource, Seq<char>)| contains_seq(e.1, f@)),
                        None => es.take(k as int),
                    }).map_values(|e: (LineSource, Seq<char>)| (e.1, line_tone(e.0))),
                decreases entries.len() - k,
            {
                let ghost before = out@;
                let (src, text) = &entries[k];
                proof {
                    assert(es.take(k + 1) =~= es.take(k as int).push(es[k as int]));
                    assert(es[k as int] == (*src, text@));
                    reveal(Seq::filter);
                    assert(es.take(k + 1).drop_last() =~= es.take(k as int));
                }
                let keep = match &app.filter {
                    Some(f) => str_contains(text.as_str(), f.as_str()),
                    None => true,
                };
                if keep {
                    let tone = match src {
                        LineSource::Stdout => Tone::Plain,
                        LineSource::Stderr => Tone::Warning,
                    };
                    out.push((text.clone(), tone));
                    assert(out@.map_values(|e: (String, Tone)| (e.0@, e.1)) =~= before.map_values(|e: (String, Tone)| (e.0@, e.1)).push((text@, line_tone(*src))));
                }
                k = k + 1;
            }
            assert(es.take(entries@.len() as int) =~= es);
            out
        },
    }
}

/// The first line of `total` the pane shows in `height` rows: the last
/// page, moved up by the scroll offset of the selected process while
/// paused (at most to the top).
pub open spec fn scroll_top_spec(app: &App, total: int, height: int) -> int {
    let off = if app.paused {
        let o = match selected_process(app) {
            Some(n) => scroll_offset(app, n) as int,
            None => scroll_offset(app, "(none)"@) as int,
        };
        let cap = if total >= height { total - height } else { 0 };
        if o < cap { o } else { cap }
    } else {
        0
    };
    if total >= height + off { total - (height + off) } else { 0 }
}

/// The first line the pane shows of `total` lines in `height` rows.
pub fn output_scroll(app: &App, total: usize, height: usize) -> (r: usize)
    ensures
        r == scroll_top_spec(app, total as int, height as int),
{
    let off: usize = if app.paused {
        let name: String = match app.selected_name() {
            Some(n) => n.to_string(),
            None => "(none)".to_string(),
        };
        let o = match find_key(&app.scroll_offsets, name.as_str()) {
            Some(i) => app.scroll_offsets[i].1,
            None => 0,
        };
        let cap = total.saturating_sub(height);
        if o < cap { o } else { cap }
    } else {
        0
    };
    total.saturating_sub(height.saturating_add(off))
}

/// The key help of the status bar.
pub fn status_keys(app: &App) -> (r: &'static str)
    ensures
        r@ == (if app.input_mode == InputMode::FilterInput {
            " type to filter, Enter confirm, Esc cancel "@
        } else if app.paused {
            " PgUp/u scroll up  PgDn/d scroll down  g top  G bottom  Space unpause  / filter  Esc clear filter "@
        } else {
            " ↑↓ select  r restart  x stop  X stop-all  e stream  Space pause  u/d scroll  / filter  q quit  Q down "@
        }),
{
    if app.input_mode == InputMode::FilterInput {
        " type to filter, Enter confirm, Esc cancel "
    } else if app.paused {
        " PgUp/u scroll up  PgDn/d scroll down  g top  G bottom  Space unpause  / filter  Esc clear filter "
    } else {
        " ↑↓ select  r restart  x stop  X stop-all  e stream  Space pause  u/d scroll  / filter  q quit  Q down "
    }
}

/// The process counts of the status bar.
pub fn status_counts(app: &App) -> (r: String)
    ensures
        r@ == " "@ + decimal(count_in_state(app.processes@, ProcessState::Running)) + " running, "@
            + decimal(count_in_state(app.processes@, ProcessState::Exited)) + " exited "@,
{
    let mut s = String::new();
    s.append(" ");
    crate::text::push_decimal(&mut s, app.running_count() as u64);
    s.append(" running, ");
    crate::text::push_decimal(&mut s, app.exited_count() as u64);
    s.append(" exited ");
    s
}

} // verus!
