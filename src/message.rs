use vstd::prelude::*;

use crate::diff::{format_diff, hunks_rows, is_line_diff, is_sign_tone, LineChange};
use crate::style::{banner_of, label_of, literal, pieces, rows_view, severity_tone, Severity, Span, Tone};
use crate::text::{spaces, spaces_of};
use crate::window::{lines_of, render_window, target_index, window_end, window_rows_of, window_start};

verus! {

/// One finding of a lint.
#[derive(Clone, Debug)]
pub struct LintMessage {
    pub severity: Severity,
    pub code: String,
    pub name: String,
    pub description: Option<String>,
    /// The text that a fix replaces.
    pub original: Option<String>,
    /// The text that a fix puts in its place.
    pub replacement: Option<String>,
    /// 1-based line that the finding points at.
    pub line: Option<usize>,
}

/// Why rendering stopped.
pub enum RenderError {
    /// The file that a context window needs could not be read.
    FileRead(String),
    /// A reported line lies past the end of its file.
    LineMismatch,
    /// A file's path could not be shown relative to the working directory.
    PathResolution(String),
}

/// Column at which descriptions wrap.
pub const WRAP_WIDTH: usize = 78;

/// Indent of each description line.
pub const DESCRIPTION_INDENT: usize = 4;

/// What textwrap's `wrap` makes of `s` at `width` columns with `indent`
/// before every line.
pub uninterp spec fn wrapped(s: Seq<char>, width: nat, indent: Seq<char>) -> Seq<Seq<char>>;

/// Relies on textwrap's `wrap` with `Options::new(width)` and `indent` as
/// both its initial and its subsequent indent: the wrapped lines, which
/// depend on the three arguments alone.
#[verifier::external_body]
fn wrap_text(s: &str, width: usize, indent: &str) -> (r: Vec<String>)
    ensures
        r@.len() == wrapped(s@, width as nat, indent@).len(),
        forall|i: int| 0 <= i < r@.len() ==> r@[i]@ == wrapped(s@, width as nat, indent@)[i],
{
    let options = textwrap::Options::new(width).initial_indent(indent).subsequent_indent(indent);
    textwrap::wrap(s, options).into_iter().map(|l| l.into_owned()).collect()
}

/// A finding with both texts of a fix shows their diff.
pub open spec fn shows_diff(m: LintMessage) -> bool {
    m.original is Some && m.replacement is Some
}

/// A finding without a fix but with a line shows the lines around it.
pub open spec fn shows_window(m: LintMessage) -> bool {
    !shows_diff(m) && m.line is Some
}

/// The banner row: severity label, code in parentheses, underlined name.
pub open spec fn header_pieces(m: LintMessage) -> Seq<(Seq<char>, Tone)> {
    seq![
        ("  "@, Tone::Plain),
        (label_of(m.severity), banner_of(m.severity)),
        (" ("@, Tone::Plain),
        (m.code@, Tone::Plain),
        (") "@, Tone::Plain),
        (m.name@, Tone::Underlined),
        ("\n"@, Tone::Plain),
    ]
}

pub open spec fn text_row(line: Seq<char>) -> Seq<(Seq<char>, Tone)> {
    seq![(line, Tone::Plain), ("\n"@, Tone::Plain)]
}

pub open spec fn blank_row() -> Seq<(Seq<char>, Tone)> {
    seq![("\n"@, Tone::Plain)]
}

/// The banner row, then the description wrapped into rows.
pub open spec fn head_rows(m: LintMessage) -> Seq<Seq<(Seq<char>, Tone)>> {
    seq![header_pieces(m)] + match m.description {
        None => Seq::empty(),
        Some(d) => wrapped(d@, WRAP_WIDTH as nat, spaces_of(DESCRIPTION_INDENT as nat)).map_values(
            |l: Seq<char>| text_row(l),
        ),
    }
}

/// Rendering `m` fails: it needs a file that could not be read, or a line
/// that the file lacks.
pub open spec fn message_fails(m: LintMessage, contents: Option<String>) -> bool {
    shows_window(m) && match contents {
        None => true,
        Some(t) => target_index(m.line->0 as nat) >= lines_of(t@).len(),
    }
}

/// The context window of `m` in the file text `t`.
pub open spec fn message_window(m: LintMessage, t: Seq<char>) -> Seq<Seq<(Seq<char>, Tone)>> {
    let target = target_index(m.line->0 as nat);
    window_rows_of(lines_of(t), window_start(target), window_end(lines_of(t).len(), target), target)
}

/// `rows` show the finding `m` of a file whose text is `contents`: the
/// banner and description, then the diff of its fix, or the lines around its
/// line, each between blank rows, or nothing more.
pub open spec fn message_shown(
    m: LintMessage,
    contents: Option<String>,
    rows: Seq<Seq<(Seq<char>, Tone)>>,
) -> bool {
    &&& rows.len() >= head_rows(m).len()
    &&& rows.take(head_rows(m).len() as int) == head_rows(m)
    &&& !shows_diff(m) && !shows_window(m) ==> rows == head_rows(m)
    &&& shows_window(m) ==> rows == head_rows(m) + seq![blank_row()] + message_window(
        m,
        contents->0@,
    ) + seq![blank_row()]
    &&& shows_diff(m) ==> exists|h: Seq<Vec<LineChange>>|
        #[trigger] is_line_diff(h, m.original->0@, m.replacement->0@) && rows == head_rows(m)
            + seq![blank_row()] + hunks_rows(h) + seq![blank_row()]
}

/// Every sign that `rows` show is `sign`.
pub open spec fn signs_are(rows: Seq<Vec<Span>>, sign: Tone) -> bool {
    forall|i: int, p: int|
        0 <= i < rows.len() && 0 <= p < rows[i]@.len() && is_sign_tone(#[trigger] rows[i]@[p].tone)
            ==> rows[i]@[p].tone == sign
}

fn blank() -> (r: Vec<Span>)
    ensures
        pieces(r@) == blank_row(),
        forall|p: int| 0 <= p < r@.len() ==> !is_sign_tone(#[trigger] r@[p].tone),
{
    let mut row: Vec<Span> = Vec::new();
    row.push(literal("\n", Tone::Plain));
    assert(pieces(row@) =~= blank_row());
    row
}

fn head(m: &LintMessage) -> (r: Vec<Vec<Span>>)
    ensures
        rows_view(r@) == head_rows(*m),
        signs_are(r@, Tone::AddedSign),
        signs_are(r@, Tone::UnchangedSign),
{
    let mut rows: Vec<Vec<Span>> = Vec::new();
    let mut header: Vec<Span> = Vec::new();
    header.push(literal("  ", Tone::Plain));
    header.push(Span { text: m.severity.label(), tone: severity_tone(m.severity) });
    header.push(literal(" (", Tone::Plain));
    header.push(Span { text: m.code.clone(), tone: Tone::Plain });
    header.push(literal(") ", Tone::Plain));
    header.push(Span { text: m.name.clone(), tone: Tone::Underlined });
    header.push(literal("\n", Tone::Plain));
    assert(pieces(header@) =~= header_pieces(*m));
    rows.push(header);
    assert(rows_view(rows@) =~= seq![header_pieces(*m)]);
    match &m.description {
        None => {
            assert(rows_view(rows@) =~= head_rows(*m));
        },
        Some(d) => {
            let lines = wrap_text(d.as_str(), WRAP_WIDTH, spaces(DESCRIPTION_INDENT).as_str());
            let ghost w = wrapped(d@, WRAP_WIDTH as nat, spaces_of(DESCRIPTION_INDENT as nat));
            let mut k: usize = 0;
            while k < lines.len()
                invariant
                    k <= lines@.len(),
                    lines@.len() == w.len(),
                    forall|i: int| 0 <= i < lines@.len() ==> lines@[i]@ == w[i],
                    rows_view(rows@) == seq![header_pieces(*m)] + w.take(k as int).map_values(
                        |l: Seq<char>| text_row(l),
                    ),
                    forall|i: int, p: int|
                        0 <= i < rows@.len() && 0 <= p < rows@[i]@.len() ==> !is_sign_tone(
                            #[trigger] rows@[i]@[p].tone,
                        ),
                decreases lines@.len() - k,
            {
                let mut row: Vec<Span> = Vec::new();
                row.push(Span { text: lines[k].clone(), tone: Tone::Plain });
                row.push(literal("\n", Tone::Plain));
                let ghost before = rows@;
                assert(pieces(row@) =~= text_row(w[k as int]));
                rows.push(row);
                assert(w.take(k + 1) =~= w.take(k as int).push(w[k as int]));
                assert(rows_view(rows@) =~= rows_view(before).push(text_row(w[k as int])));
                k = k + 1;
                assert(rows_view(rows@) =~= seq![header_pieces(*m)] + w.take(k as int).map_values(
                    |l: Seq<char>| text_row(l),
                ));
            }
            assert(w.take(k as int) =~= w);
        },
    }
    rows
}

/// The rows that show one finding of the file at `path`, whose text is
/// `contents` where it could be read: the banner, the wrapped description,
/// then the diff of its fix, or the lines around its line, each between
/// blank rows, or nothing more.
pub fn render_message(m: &LintMessage, path: &String, contents: &Option<String>) -> (r: Result<
    Vec<Vec<Span>>,
    RenderError,
>)
    ensures
        r is Err <==> message_fails(*m, *contents),
        r matches Err(e) ==> (contents is None <==> (e matches RenderError::FileRead(p) && p@ == path@)),
        r matches Err(e) ==> (contents is Some <==> e is LineMismatch),
        r matches Ok(rows) ==> {
            &&& message_shown(*m, *contents, rows_view(rows@))
            &&& shows_diff(*m) && m.original->0@ == m.replacement->0@ ==> signs_are(
                rows@,
                Tone::UnchangedSign,
            )
            &&& shows_diff(*m) && m.original->0@.len() == 0 ==> signs_are(rows@, Tone::AddedSign)
        },
{
    let mut rows = head(m);
    let ghost h = rows_view(rows@);
    if let (Some(original), Some(replacement)) = (&m.original, &m.replacement) {
        rows.push(blank());
        let mut body = format_diff(original.as_str(), replacement.as_str());
        let ghost mid = rows_view(body@);
        let ghost r1 = rows@;
        rows.append(&mut body);
        let ghost r2 = rows@;
        rows.push(blank());
        proof {
            assert(rows_view(r1) =~= h + seq![blank_row()]);
            assert(rows_view(r2) =~= h + seq![blank_row()] + mid);
            assert(rows_view(rows@) =~= h + seq![blank_row()] + mid + seq![blank_row()]);
            assert(rows_view(rows@).take(h.len() as int) =~= h);
        }
        Ok(rows)
    } else if let Some(line_number) = m.line {
        match contents {
            None => Err(RenderError::FileRead(path.clone())),
            Some(text) => match render_window(text.as_str(), line_number) {
                Err(_) => Err(RenderError::LineMismatch),
                Ok(mut body) => {
                    rows.push(blank());
                    let ghost mid = rows_view(body@);
                    let ghost r1 = rows@;
                    rows.append(&mut body);
                    let ghost r2 = rows@;
                    rows.push(blank());
                    proof {
                        assert(rows_view(r1) =~= h + seq![blank_row()]);
                        assert(rows_view(r2) =~= h + seq![blank_row()] + mid);
                        assert(rows_view(rows@) =~= h + seq![blank_row()] + mid + seq![blank_row()]);
                        assert(rows_view(rows@).take(h.len() as int) =~= h);
                    }
                    Ok(rows)
                },
            },
        }
    } else {
        assert(rows_view(rows@).take(h.len() as int) =~= h);
        assert(rows_view(rows@) =~= h);
        Ok(rows)
    }
}

} // verus!
