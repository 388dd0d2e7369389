use similar::ChangeTag;
use vstd::prelude::*;

use crate::style::{literal, pieces, rows_view, Span, Tone};
use crate::text::{decimal, decimal_of, left_aligned, pad_right, repeated, spaces, spaces_of};
use crate::window::{lines_of, CONTEXT_LINES};

verus! {

/// How a line takes part in a change.
#[derive(Clone, Copy, Debug, PartialEq, Eq, Structural)]
pub enum ChangeKind {
    Delete,
    Insert,
    Equal,
}

/// A piece of a changed line; `emphasized` marks the characters that differ
/// from the matching line on the other side.
pub struct Segment {
    pub emphasized: bool,
    pub text: String,
}

/// One line of a hunk.
pub struct LineChange {
    pub kind: ChangeKind,
    /// 0-based index of the line in the original text, where it is there.
    pub old_index: Option<usize>,
    /// 0-based index of the line in the replacement text, where it is there.
    pub new_index: Option<usize>,
    pub segments: Vec<Segment>,
    /// The line is the last of its text and has no line terminator.
    pub missing_newline: bool,
}

/// The texts of `segs`, one after the other.
pub open spec fn joined_text(segs: Seq<Segment>) -> Seq<char>
    decreases segs.len(),
{
    if segs.len() == 0 {
        Seq::empty()
    } else {
        joined_text(segs.drop_last()) + segs.last().text@
    }
}

/// The indices of `c` fit its kind and the two texts' lines, and its pieces
/// join up to the line it shows: the old line for deleted and unchanged
/// lines, the new line for inserted ones; an unchanged line is the same on
/// both sides.
pub open spec fn change_fits(c: LineChange, old: Seq<Seq<char>>, new: Seq<Seq<char>>) -> bool {
    match c.kind {
        ChangeKind::Delete => c.new_index is None && (c.old_index matches Some(i) && i < old.len()
            && joined_text(c.segments@) == old[i as int]),
        ChangeKind::Insert => c.old_index is None && (c.new_index matches Some(j) && j < new.len()
            && joined_text(c.segments@) == new[j as int]),
        ChangeKind::Equal => (c.old_index matches Some(i) && i < old.len() && joined_text(c.segments@)
            == old[i as int]) && (c.new_index matches Some(j) && j < new.len() && old[c.old_index->0 as int]
            == new[j as int]),
    }
}

/// Every line of every hunk has the given kind.
pub open spec fn all_of_kind(h: Seq<Vec<LineChange>>, kind: ChangeKind) -> bool {
    forall|i: int, j: int| 0 <= i < h.len() && 0 <= j < h[i]@.len() ==> (#[trigger] h[i]@[j]).kind == kind
}

/// Line numbers that a gutter can show.
pub open spec fn indices_bounded(h: Seq<Vec<LineChange>>) -> bool {
    forall|i: int, j: int|
        0 <= i < h.len() && 0 <= j < h[i]@.len() ==> change_bounded(#[trigger] h[i]@[j])
}

pub open spec fn change_bounded(c: LineChange) -> bool {
    &&& (c.old_index matches Some(k) ==> k < usize::MAX)
    &&& (c.new_index matches Some(k) ==> k < usize::MAX)
}

/// One hunk of `n` lines, the `k`-th inserting line `k` of the new text.
pub open spec fn all_inserted(h: Seq<Vec<LineChange>>, n: nat) -> bool {
    &&& h.len() == 1
    &&& h[0]@.len() == n
    &&& forall|k: int|
        0 <= k < n ==> (#[trigger] h[0]@[k]).kind == ChangeKind::Insert && h[0]@[k].new_index == Some(
            k as usize,
        )
}

/// What holds of any line diff of `old` and `new` in hunks: each line shows
/// a line of the texts as its kind and indices say, and fits in a gutter;
/// equal texts have no hunk, different ones a deleted or inserted line; an
/// empty original has only inserted lines, one hunk of them all when the
/// replacement is not empty, and an empty replacement only deleted ones.
pub open spec fn is_line_diff(h: Seq<Vec<LineChange>>, old: Seq<char>, new: Seq<char>) -> bool {
    &&& forall|i: int, j: int|
        0 <= i < h.len() && 0 <= j < h[i]@.len() ==> change_fits(
            #[trigger] h[i]@[j],
            lines_of(old),
            lines_of(new),
        )
    &&& indices_bounded(h)
    &&& old == new ==> h.len() == 0
    &&& old != new ==> exists|i: int, j: int|
        0 <= i < h.len() && 0 <= j < h[i]@.len() && (#[trigger] h[i]@[j]).kind != ChangeKind::Equal
    &&& old.len() == 0 && new.len() > 0 ==> all_inserted(h, lines_of(new).len())
    &&& old.len() == 0 ==> all_of_kind(h, ChangeKind::Insert)
    &&& new.len() == 0 ==> all_of_kind(h, ChangeKind::Delete)
}

/// Relies on similar's `TextDiff::from_lines`, `TextDiff::grouped_ops` and
/// `TextDiff::iter_inline_changes`: the line diff of `old` and `new` in
/// hunks with `context` unchanged lines around each change, every line split
/// into emphasized and plain pieces. Deleted lines carry only an old index,
/// inserted lines only a new one, unchanged lines both; indices point into the
/// texts' lines (`tokenize_lines`, which a `Vec` holds), and each line's
/// pieces join up to its line. Two equal texts give no hunk, since a group of
/// unchanged lines alone is dropped; two different ones give at least one
/// deleted or inserted line. An empty original gives a single insertion of
/// every new line, in one hunk; an empty replacement only deletions. Which
/// characters are emphasized is left open: that split runs under a deadline.
#[verifier::external_body]
fn hunks_of(old: &str, new: &str, context: usize) -> (r: Vec<Vec<LineChange>>)
    ensures
        is_line_diff(r@, old@, new@),
{
    let diff = similar::TextDiff::from_lines(old, new);
    let kind = |t: ChangeTag| match t {
        ChangeTag::Delete => ChangeKind::Delete,
        ChangeTag::Insert => ChangeKind::Insert,
        ChangeTag::Equal => ChangeKind::Equal,
    };
    diff.grouped_ops(context).iter().map(|group| {
        group.iter().flat_map(|op| diff.iter_inline_changes(op)).map(|c| LineChange {
            kind: kind(c.tag()),
            old_index: c.old_index(),
            new_index: c.new_index(),
            segments: c.iter_strings_lossy().map(|(e, s)| Segment { emphasized: e, text: s.into_owned() }).collect(),
            missing_newline: c.missing_newline(),
        }).collect()
    }).collect()
}

/// The gutter cell of a line index: its 1-based number left-aligned in four
/// columns, or four blanks where the line is absent on that side.
pub open spec fn gutter_of(i: Option<usize>) -> Seq<char> {
    match i {
        None => spaces_of(4),
        Some(k) => left_aligned(decimal_of((k + 1) as nat), 4),
    }
}

pub open spec fn sign_of(k: ChangeKind) -> Seq<char> {
    match k {
        ChangeKind::Delete => "-"@,
        ChangeKind::Insert => "+"@,
        ChangeKind::Equal => " "@,
    }
}

pub open spec fn sign_tone(k: ChangeKind) -> Tone {
    match k {
        ChangeKind::Delete => Tone::RemovedSign,
        ChangeKind::Insert => Tone::AddedSign,
        ChangeKind::Equal => Tone::UnchangedSign,
    }
}

pub open spec fn is_sign_tone(t: Tone) -> bool {
    t == Tone::RemovedSign || t == Tone::AddedSign || t == Tone::UnchangedSign
}

pub open spec fn text_tone(k: ChangeKind, emphasized: bool) -> Tone {
    match (k, emphasized) {
        (ChangeKind::Delete, false) => Tone::Removed,
        (ChangeKind::Delete, true) => Tone::RemovedEmphasis,
        (ChangeKind::Insert, false) => Tone::Added,
        (ChangeKind::Insert, true) => Tone::AddedEmphasis,
        (ChangeKind::Equal, false) => Tone::Unchanged,
        (ChangeKind::Equal, true) => Tone::UnchangedEmphasis,
    }
}

/// The row of a line: indent, the two gutters, a bar, the sign, the line's
/// pieces, and a newline where the line lacked its own.
pub open spec fn change_pieces(c: LineChange) -> Seq<(Seq<char>, Tone)> {
    seq![
        ("    "@, Tone::Plain),
        (gutter_of(c.old_index), Tone::Dim),
        (gutter_of(c.new_index), Tone::Dim),
        (" |"@, Tone::Plain),
        (sign_of(c.kind), sign_tone(c.kind)),
    ] + c.segments@.map_values(|s: Segment| (s.text@, text_tone(c.kind, s.emphasized))) + if c.missing_newline {
        seq![("\n"@, Tone::Plain)]
    } else {
        Seq::empty()
    }
}

/// The rule between two hunks: 80 dashes and a newline.
pub open spec fn separator_pieces() -> Seq<(Seq<char>, Tone)> {
    seq![(Seq::new(80, |i: int| '-') + "\n"@, Tone::Plain)]
}

pub open spec fn hunk_rows(g: Seq<LineChange>) -> Seq<Seq<(Seq<char>, Tone)>> {
    g.map_values(|c: LineChange| change_pieces(c))
}

/// The rows of a diff: its hunks' rows, a rule between each two hunks.
pub open spec fn hunks_rows(h: Seq<Vec<LineChange>>) -> Seq<Seq<(Seq<char>, Tone)>>
    decreases h.len(),
{
    if h.len() == 0 {
        Seq::empty()
    } else if h.len() == 1 {
        hunk_rows(h[0]@)
    } else {
        hunks_rows(h.drop_last()) + seq![separator_pieces()] + hunk_rows(h.last()@)
    }
}

fn gutter(i: Option<usize>) -> (r: String)
    requires
        i matches Some(k) ==> k < usize::MAX,
    ensures
        r@ == gutter_of(i),
{
    match i {
        None => spaces(4),
        Some(k) => pad_right(decimal(k + 1), 4),
    }
}

fn sign(k: ChangeKind) -> (r: Span)
    ensures
        r.text@ == sign_of(k),
        r.tone == sign_tone(k),
{
    match k {
        ChangeKind::Delete => literal("-", Tone::RemovedSign),
        ChangeKind::Insert => literal("+", Tone::AddedSign),
        ChangeKind::Equal => literal(" ", Tone::UnchangedSign),
    }
}

fn segment_tone(k: ChangeKind, emphasized: bool) -> (r: Tone)
    ensures
        r == text_tone(k, emphasized),
{
    match (k, emphasized) {
        (ChangeKind::Delete, false) => Tone::Removed,
        (ChangeKind::Delete, true) => Tone::RemovedEmphasis,
        (ChangeKind::Insert, false) => Tone::Added,
        (ChangeKind::Insert, true) => Tone::AddedEmphasis,
        (ChangeKind::Equal, false) => Tone::Unchanged,
        (ChangeKind::Equal, true) => Tone::UnchangedEmphasis,
    }
}

/// The row that shows one line of a hunk.
pub fn change_row(c: &LineChange) -> (r: Vec<Span>)
    requires
        change_bounded(*c),
    ensures
        pieces(r@) == change_pieces(*c),
{
    let mut row: Vec<Span> = Vec::new();
    row.push(literal("    ", Tone::Plain));
    row.push(Span { text: gutter(c.old_index), tone: Tone::Dim });
    row.push(Span { text: gutter(c.new_index), tone: Tone::Dim });
    row.push(literal(" |", Tone::Plain));
    row.push(sign(c.kind));
    let ghost head = pieces(row@);
    let mut i: usize = 0;
    while i < c.segments.len()
        invariant
            i <= c.segments@.len(),
            head.len() == 5,
            pieces(row@) == head + c.segments@.take(i as int).map_values(
                |s: Segment| (s.text@, text_tone(c.kind, s.emphasized)),
            ),
        decreases c.segments@.len() - i,
    {
        let seg = &c.segments[i];
        let ghost before = row@;
        row.push(Span { text: seg.text.clone(), tone: segment_tone(c.kind, seg.emphasized) });
        assert(c.segments@.take(i + 1) =~= c.segments@.take(i as int).push(c.segments@[i as int]));
        assert(pieces(row@) =~= pieces(before).push((seg.text@, text_tone(c.kind, seg.emphasized))));
        i = i + 1;
        assert(pieces(row@) =~= head + c.segments@.take(i as int).map_values(
            |s: Segment| (s.text@, text_tone(c.kind, s.emphasized)),
        ));
    }
    assert(c.segments@.take(i as int) =~= c.segments@);
    if c.missing_newline {
        let ghost before = row@;
        row.push(literal("\n", Tone::Plain));
        assert(pieces(row@) =~= pieces(before).push(("\n"@, Tone::Plain)));
    }
    assert(pieces(row@) =~= change_pieces(*c));
    row
}

/// The rule between two hunks.
pub fn separator_row() -> (r: Vec<Span>)
    ensures
        pieces(r@) == separator_pieces(),
{
    proof { reveal_strlit("-"); }
    let dashes = repeated("-", 80);
    let text = dashes.concat("\n");
    let mut row: Vec<Span> = Vec::new();
    row.push(Span { text, tone: Tone::Plain });
    assert(Seq::new(80, |i: int| "-"@[0]) =~= Seq::new(80, |i: int| '-'));
    assert(pieces(row@) =~= separator_pieces());
    row
}

/// The rows that show a diff given as hunks: each line's row, in order, with
/// a rule between each two hunks.
pub fn render_hunks(hunks: &Vec<Vec<LineChange>>) -> (r: Vec<Vec<Span>>)
    requires
        indices_bounded(hunks@),
    ensures
        rows_view(r@) == hunks_rows(hunks@),
{
    let mut out: Vec<Vec<Span>> = Vec::new();
    let mut i: usize = 0;
    while i < hunks.len()
        invariant
            i <= hunks@.len(),
            indices_bounded(hunks@),
            rows_view(out@) == hunks_rows(hunks@.take(i as int)),
        decreases hunks@.len() - i,
    {
        let group = &hunks[i];
        let ghost done = rows_view(out@);
        if i > 0 {
            out.push(separator_row());
        }
        let ghost lead = if i > 0 { done + seq![separator_pieces()] } else { done };
        assert(rows_view(out@) =~= lead);
        let mut j: usize = 0;
        while j < group.len()
            invariant
                j <= group@.len(),
                group == hunks@[i as int],
                i < hunks@.len(),
                indices_bounded(hunks@),
                rows_view(out@) == lead + hunk_rows(group@.take(j as int)),
            decreases group@.len() - j,
        {
            let ghost before = out@;
            assert(change_bounded(hunks@[i as int]@[j as int]));
            out.push(change_row(&group[j]));
            assert(group@.take(j + 1) =~= group@.take(j as int).push(group@[j as int]));
            assert(rows_view(out@) =~= rows_view(before).push(change_pieces(group@[j as int])));
            j = j + 1;
            assert(rows_view(out@) =~= lead + hunk_rows(group@.take(j as int)));
        }
        assert(group@.take(j as int) =~= group@);
        let ghost next = hunks@.take(i + 1);
        assert(next.drop_last() =~= hunks@.take(i as int));
        assert(next.last() == *group);
        if i == 0 {
            assert(next =~= seq![*group]);
            assert(rows_view(out@) =~= hunks_rows(next));
        } else {
            assert(rows_view(out@) =~= hunks_rows(next));
        }
        i = i + 1;
    }
    assert(hunks@.take(i as int) =~= hunks@);
    out
}

/// A diff shows at least as many rows as any of its hunks has lines.
pub proof fn lemma_rows_len(h: Seq<Vec<LineChange>>, i: int)
    requires
        0 <= i < h.len(),
    ensures
        hunks_rows(h).len() >= h[i]@.len(),
    decreases h.len(),
{
    if h.len() > 1 && i < h.len() - 1 {
        lemma_rows_len(h.drop_last(), i);
    }
}

/// Where every line of a diff has one kind, every sign that its rows show is
/// that kind's sign.
pub proof fn lemma_rows_signs(h: Seq<Vec<LineChange>>, kind: ChangeKind)
    requires
        all_of_kind(h, kind),
    ensures
        forall|r: int, p: int|
            0 <= r < hunks_rows(h).len() && 0 <= p < hunks_rows(h)[r].len() && is_sign_tone(
                #[trigger] hunks_rows(h)[r][p].1,
            ) ==> hunks_rows(h)[r][p].1 == sign_tone(kind),
    decreases h.len(),
{
    if h.len() > 0 {
        let g = h.last()@;
        assert forall|k: int| 0 <= k < g.len() implies (#[trigger] g[k]).kind == kind by {
            assert(h[h.len() - 1]@[k] == g[k]);
        }
        assert forall|k: int, p: int|
            0 <= k < hunk_rows(g).len() && 0 <= p < hunk_rows(g)[k].len() && is_sign_tone(
                #[trigger] hunk_rows(g)[k][p].1,
            ) implies hunk_rows(g)[k][p].1 == sign_tone(kind) by {
            let c = g[k];
            assert(hunk_rows(g)[k] == change_pieces(c));
        }
        if h.len() > 1 {
            let rest = h.drop_last();
            assert forall|i: int, j: int|
                0 <= i < rest.len() && 0 <= j < rest[i]@.len() implies (#[trigger] rest[i]@[j]).kind
                == kind by {
                assert(rest[i] == h[i]);
            }
            lemma_rows_signs(rest, kind);
        } else {
            assert(h[0]@ == g);
        }
    }
}

/// The rows that show the line diff of `old` and `new`, hunks apart by a
/// rule. Equal texts show no removal or addition sign; an empty original
/// shows only addition signs, an empty replacement only removal signs.
pub fn format_diff(old: &str, new: &str) -> (r: Vec<Vec<Span>>)
    ensures
        exists|h: Seq<Vec<LineChange>>|
            #[trigger] is_line_diff(h, old@, new@) && rows_view(r@) == hunks_rows(h),
        old@ == new@ ==> r@.len() == 0,
        old@ != new@ ==> r@.len() > 0,
        old@ == new@ ==> forall|i: int, p: int|
            0 <= i < r@.len() && 0 <= p < r@[i]@.len() && is_sign_tone(#[trigger] r@[i]@[p].tone)
                ==> r@[i]@[p].tone == Tone::UnchangedSign,
        old@.len() == 0 ==> forall|i: int, p: int|
            0 <= i < r@.len() && 0 <= p < r@[i]@.len() && is_sign_tone(#[trigger] r@[i]@[p].tone)
                ==> r@[i]@[p].tone == Tone::AddedSign,
        new@.len() == 0 ==> forall|i: int, p: int|
            0 <= i < r@.len() && 0 <= p < r@[i]@.len() && is_sign_tone(#[trigger] r@[i]@[p].tone)
                ==> r@[i]@[p].tone == Tone::RemovedSign,
{
    let hunks = hunks_of(old, new, CONTEXT_LINES);
    let rows = render_hunks(&hunks);
    proof {
        let v = hunks_rows(hunks@);
        assert forall|i: int, p: int| 0 <= i < rows@.len() && 0 <= p < rows@[i]@.len() implies (
        #[trigger] rows@[i]@[p].tone) == v[i][p].1 by {
            assert(rows_view(rows@)[i] == pieces(rows@[i]@));
        }
        if old@ != new@ {
            let (a, b) = choose|i: int, j: int|
                0 <= i < hunks@.len() && 0 <= j < hunks@[i]@.len() && (#[trigger] hunks@[i]@[j]).kind
                    != ChangeKind::Equal;
            lemma_rows_len(hunks@, a);
        }
        if old@.len() == 0 {
            lemma_rows_signs(hunks@, ChangeKind::Insert);
        }
        if new@.len() == 0 {
            lemma_rows_signs(hunks@, ChangeKind::Delete);
        }
        assert(is_line_diff(hunks@, old@, new@));
    }
    rows
}

} // verus!
