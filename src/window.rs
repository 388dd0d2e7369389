use similar::DiffableStr;
use vstd::prelude::*;

use crate::style::{literal, pieces, rows_view, Span, Tone};
use crate::text::{decimal, decimal_of};

verus! {

/// Number of unchanged lines shown on each side of a change or a reported
/// line.
pub const CONTEXT_LINES: usize = 3;

/// The index of a 1-based line number, where 0 counts as line 1.
pub open spec fn target_index(line_number: nat) -> nat {
    if line_number == 0 { 0 } else { (line_number - 1) as nat }
}

/// First index of the window around `target`.
pub open spec fn window_start(target: nat) -> nat {
    if target >= 3 { (target - 3) as nat } else { 0 }
}

/// Last index of the window around `target` in a file of `n` lines.
pub open spec fn window_end(n: nat, target: nat) -> nat {
    if target + 3 <= n - 1 { target + 3 } else { (n - 1) as nat }
}

/// Around line 1 a window starts at the first index, never before it;
/// around the last line of a file of `n` lines it ends at index `n - 1`,
/// never past it.
pub proof fn lemma_window_edges(n: nat)
    requires
        n >= 1,
    ensures
        window_start(target_index(1)) == 0,
        window_end(n, target_index(n)) == n - 1,
        window_start(target_index(n)) <= n - 1,
{
}

/// The inclusive index range `(start, end)` of the lines shown around the
/// 1-based `line_number` in a file of `n_lines` lines, or `None` where the
/// line lies past the end of the file.
pub fn window_bounds(n_lines: usize, line_number: usize) -> (r: Option<(usize, usize)>)
    ensures
        r is None <==> target_index(line_number as nat) >= n_lines,
        r matches Some((s, e)) ==> {
            &&& s == window_start(target_index(line_number as nat))
            &&& e == window_end(n_lines as nat, target_index(line_number as nat))
            &&& s <= target_index(line_number as nat) <= e
            &&& e < n_lines
        },
{
    let line_idx = line_number.saturating_sub(1);
    if line_idx >= n_lines {
        return None;
    }
    let max_idx = n_lines - 1;
    let start_idx = line_idx.saturating_sub(CONTEXT_LINES);
    let end_idx = if max_idx >= CONTEXT_LINES && line_idx <= max_idx - CONTEXT_LINES {
        line_idx + CONTEXT_LINES
    } else {
        max_idx
    };
    Some((start_idx, end_idx))
}

/// The lines of a text, each with its line terminator where it has one.
pub uninterp spec fn lines_of(s: Seq<char>) -> Seq<Seq<char>>;

/// Relies on similar's `DiffableStr::tokenize_lines`: it splits after each
/// `\n`, `\r\n` or lone `\r` and keeps the terminators, so a text has no
/// lines exactly when it is empty.
#[verifier::external_body]
pub(crate) fn split_lines(s: &str) -> (r: Vec<String>)
    ensures
        r@.len() == lines_of(s@).len(),
        forall|i: int| 0 <= i < r@.len() ==> r@[i]@ == lines_of(s@)[i],
        s@.len() == 0 <==> r@.len() == 0,
{
    s.tokenize_lines().into_iter().map(|l| l.to_string()).collect()
}

/// The lines of a file shown around a reported line.
pub struct ContextWindow {
    /// 1-based line numbers with the lines' text.
    pub lines: Vec<(usize, String)>,
    /// Position in `lines` of the reported line.
    pub target: usize,
}

/// `w` holds lines `start..=end` of `lines`, numbered from 1, and marks the
/// one at index `target`.
pub open spec fn window_holds(
    w: ContextWindow,
    lines: Seq<Seq<char>>,
    start: nat,
    end: nat,
    target: nat,
) -> bool {
    &&& w.lines@.len() == end - start + 1
    &&& w.target == target - start
    &&& forall|k: int|
        0 <= k < w.lines@.len() ==> {
            &&& w.lines@[k].0 == start + k + 1
            &&& w.lines@[k].1@ == lines[start + k]
        }
}

/// Why a context window could not be built.
#[derive(Clone, Copy, Debug, PartialEq, Eq, Structural)]
pub enum WindowError {
    /// The reported line lies past the end of the file.
    LineMismatch,
}

/// The window of lines around the 1-based `line_number` of `text`; an error
/// where the file has fewer lines.
pub fn extract_window(text: &str, line_number: usize) -> (r: Result<ContextWindow, WindowError>)
    ensures
        r is Err <==> target_index(line_number as nat) >= lines_of(text@).len(),
        r matches Ok(w) ==> window_holds(
            w,
            lines_of(text@),
            window_start(target_index(line_number as nat)),
            window_end(lines_of(text@).len(), target_index(line_number as nat)),
            target_index(line_number as nat),
        ),
{
    let lines = split_lines(text);
    let n = lines.len();
    match window_bounds(n, line_number) {
        None => Err(WindowError::LineMismatch),
        Some((start, end)) => {
            let mut out: Vec<(usize, String)> = Vec::new();
            let mut cur = start;
            while cur <= end
                invariant
                    start <= cur <= end + 1,
                    end < n,
                    n == lines@.len(),
                    out@.len() == cur - start,
                    forall|k: int|
                        0 <= k < out@.len() ==> {
                            &&& out@[k].0 == start + k + 1
                            &&& out@[k].1@ == lines@[start + k]@
                        },
                decreases end + 1 - cur,
            {
                out.push((cur + 1, lines[cur].clone()));
                cur = cur + 1;
            }
            Ok(ContextWindow { lines: out, target: line_number.saturating_sub(1) - start })
        },
    }
}

/// The row of one window line: a chevron on the reported line, the dimmed
/// line number, a bar, and the line's text, highlighted where it is the
/// reported one.
pub open spec fn window_line_pieces(number: nat, text: Seq<char>, marked: bool) -> Seq<(Seq<char>, Tone)> {
    seq![
        (if marked { "    >>> "@ } else { "        "@ }, Tone::Plain),
        (decimal_of(number), Tone::Dim),
        ("  |"@, Tone::Plain),
        (text, if marked { Tone::Highlight } else { Tone::Plain }),
    ]
}

/// The rows of lines `start..=end` of `lines` with the line at `target` marked.
pub open spec fn window_rows_of(lines: Seq<Seq<char>>, start: nat, end: nat, target: nat) -> Seq<
    Seq<(Seq<char>, Tone)>,
> {
    Seq::new(
        (end + 1 - start) as nat,
        |k: int| window_line_pieces((start + k + 1) as nat, lines[start + k], start + k == target),
    )
}

/// The rows that show a context window.
pub fn window_rows(w: &ContextWindow) -> (r: Vec<Vec<Span>>)
    ensures
        r@.len() == w.lines@.len(),
        forall|k: int|
            0 <= k < r@.len() ==> pieces(#[trigger] r@[k]@) == window_line_pieces(
                w.lines@[k].0 as nat,
                w.lines@[k].1@,
                k == w.target,
            ),
{
    let mut out: Vec<Vec<Span>> = Vec::new();
    let mut k: usize = 0;
    while k < w.lines.len()
        invariant
            k <= w.lines@.len(),
            out@.len() == k,
            forall|i: int|
                0 <= i < k ==> pieces(#[trigger] out@[i]@) == window_line_pieces(
                    w.lines@[i].0 as nat,
                    w.lines@[i].1@,
                    i == w.target,
                ),
        decreases w.lines@.len() - k,
    {
        let (number, text) = &w.lines[k];
        let marked = k == w.target;
        let mut row: Vec<Span> = Vec::new();
        if marked {
            row.push(literal("    >>> ", Tone::Plain));
        } else {
            row.push(literal("        ", Tone::Plain));
        }
        row.push(Span { text: decimal(*number), tone: Tone::Dim });
        row.push(literal("  |", Tone::Plain));
        row.push(Span { text: text.clone(), tone: if marked { Tone::Highlight } else { Tone::Plain } });
        assert(pieces(row@) =~= window_line_pieces(*number as nat, text@, k == w.target));
        out.push(row);
        k = k + 1;
    }
    out
}

/// The rows of the window around the 1-based `line_number` of `text`; an
/// error where the file has fewer lines.
pub fn render_window(text: &str, line_number: usize) -> (r: Result<Vec<Vec<Span>>, WindowError>)
    ensures
        r is Err <==> target_index(line_number as nat) >= lines_of(text@).len(),
        r matches Ok(rows) ==> rows_view(rows@) == window_rows_of(
            lines_of(text@),
            window_start(target_index(line_number as nat)),
            window_end(lines_of(text@).len(), target_index(line_number as nat)),
            target_index(line_number as nat),
        ),
{
    match extract_window(text, line_number) {
        Err(e) => Err(e),
        Ok(w) => {
            let rows = window_rows(&w);
            let ghost t = target_index(line_number as nat);
            let ghost start = window_start(t);
            let ghost end = window_end(lines_of(text@).len(), t);
            assert(rows_view(rows@) =~= window_rows_of(lines_of(text@), start, end, t)) by {
                assert forall|k: int| 0 <= k < rows@.len() implies rows_view(rows@)[k]
                    == window_rows_of(lines_of(text@), start, end, t)[k] by {
                    assert(pieces(rows@[k]@) == window_line_pieces(
                        w.lines@[k].0 as nat,
                        w.lines@[k].1@,
                        k == w.target,
                    ));
                }
            }
            Ok(rows)
        },
    }
}

} // verus!
