use vstd::prelude::*;

use crate::message::{message_fails, message_shown, render_message, LintMessage, RenderError};
use crate::order::{
    ascending, bytes_lt, covers, distinct_paths, is_permutation, key, lemma_ascending_from,
    lemma_bytes_irreflexive, lemma_bytes_trans, sorted_order,
};
use crate::style::{literal, pieces, rows_view, Span, Tone};

verus! {

/// The findings of one file.
pub struct FileLints {
    /// Absolute path of the file; files are shown in the byte order of these.
    pub path: String,
    /// The path relative to the working directory, where there is one.
    pub relative: Option<String>,
    /// Findings in the order they were produced.
    pub messages: Vec<LintMessage>,
    /// The file's text, where it could be read.
    pub contents: Option<String>,
}

/// Whether any finding was shown.
#[derive(Clone, Copy, Debug, PartialEq, Eq, Structural)]
pub enum PrintedLintErrors {
    Yes,
    No,
}

/// The rows shown for one file.
pub struct Section {
    pub path: String,
    pub rows: Vec<Vec<Span>>,
}

/// Everything shown for a set of findings.
pub struct Report {
    pub printed: PrintedLintErrors,
    /// The confirmation shown when there is nothing to report.
    pub notice: Vec<Vec<Span>>,
    /// One section per file, in ascending byte order of the paths.
    pub sections: Vec<Section>,
}

pub open spec fn ok_row() -> Seq<(Seq<char>, Tone)> {
    seq![("ok"@, Tone::Success), (" "@, Tone::Plain), ("No lint issues."@, Tone::Plain), ("\n"@, Tone::Plain)]
}

/// The two rows before a file's findings: a gap, then the file's path.
pub open spec fn section_head(relative: Seq<char>) -> Seq<Seq<(Seq<char>, Tone)>> {
    seq![
        seq![("\n\n"@, Tone::Plain)],
        seq![
            (">>>"@, Tone::Bold),
            (" Lint for "@, Tone::Plain),
            (relative, Tone::Underlined),
            (":\n"@, Tone::Plain),
            ("\n"@, Tone::Plain),
        ],
    ]
}

/// The rows of consecutive parts, one after the other.
pub open spec fn joined(parts: Seq<Seq<Seq<(Seq<char>, Tone)>>>) -> Seq<Seq<(Seq<char>, Tone)>>
    decreases parts.len(),
{
    if parts.len() == 0 {
        Seq::empty()
    } else {
        joined(parts.drop_last()) + parts.last()
    }
}

/// `rows` show the file `f`: its heading, then each finding's rows in order.
pub open spec fn file_shown(f: FileLints, rows: Seq<Seq<(Seq<char>, Tone)>>) -> bool {
    exists|parts: Seq<Seq<Seq<(Seq<char>, Tone)>>>| #[trigger] parts_show(f, parts) && rows
        == section_head(f.relative->0@) + joined(parts)
}

/// `parts` hold the rows of each finding of `f`, in order.
pub open spec fn parts_show(f: FileLints, parts: Seq<Seq<Seq<(Seq<char>, Tone)>>>) -> bool {
    &&& parts.len() == f.messages@.len()
    &&& forall|k: int| 0 <= k < parts.len() ==> message_shown(f.messages@[k], f.contents, #[trigger] parts[k])
}

/// A file can be shown: its path has a relative form, and none of its
/// findings fails.
pub open spec fn file_ok(f: FileLints) -> bool {
    &&& f.relative is Some
    &&& forall|k: int| 0 <= k < f.messages@.len() ==> !message_fails(#[trigger] f.messages@[k], f.contents)
}

/// `e` is the error that rendering `f` gives: a path that has no relative
/// form, else a file that could not be read, else a line past its end.
pub open spec fn file_error(f: FileLints, e: RenderError) -> bool {
    match f.relative {
        None => e matches RenderError::PathResolution(p) && p@ == f.path@,
        Some(_) => match f.contents {
            None => e matches RenderError::FileRead(p) && p@ == f.path@,
            Some(_) => e is LineMismatch,
        },
    }
}

/// `s` shows the file `f`.
pub open spec fn shows_file(s: Section, f: FileLints) -> bool {
    &&& s.path@ == f.path@
    &&& file_shown(f, rows_view(s.rows@))
}

/// `s` shows one of `files`.
pub open spec fn shows_some(s: Section, files: Seq<FileLints>) -> bool {
    exists|j: int| 0 <= j < files.len() && shows_file(s, #[trigger] files[j])
}

/// Every file whose path sorts before that of `files[i]` can be shown.
pub open spec fn first_failing(files: Seq<FileLints>, i: int) -> bool {
    forall|j: int|
        0 <= j < files.len() && bytes_lt(key(#[trigger] files[j].path), key(files[i].path)) ==> file_ok(
            files[j],
        )
}

pub open spec fn file_paths(files: Seq<FileLints>) -> Seq<String> {
    files.map_values(|f: FileLints| f.path)
}

/// The rows of one file: its heading, then each finding's rows in order.
pub fn render_file(f: &FileLints) -> (r: Result<Vec<Vec<Span>>, RenderError>)
    ensures
        r is Ok <==> file_ok(*f),
        r matches Err(e) ==> file_error(*f, e),
        r matches Ok(rows) ==> file_shown(*f, rows_view(rows@)),
{
    let relative = match &f.relative {
        None => {
            return Err(RenderError::PathResolution(f.path.clone()));
        },
        Some(rel) => rel,
    };
    assert(f.relative is Some);
    let mut rows: Vec<Vec<Span>> = Vec::new();
    let mut gap: Vec<Span> = Vec::new();
    gap.push(literal("\n\n", Tone::Plain));
    assert(pieces(gap@) =~= seq![("\n\n"@, Tone::Plain)]);
    rows.push(gap);
    let mut title: Vec<Span> = Vec::new();
    title.push(literal(">>>", Tone::Bold));
    title.push(literal(" Lint for ", Tone::Plain));
    title.push(Span { text: relative.clone(), tone: Tone::Underlined });
    title.push(literal(":\n", Tone::Plain));
    title.push(literal("\n", Tone::Plain));
    assert(pieces(title@) =~= section_head(relative@)[1]);
    rows.push(title);
    let ghost head = section_head(relative@);
    let ghost mut parts: Seq<Seq<Seq<(Seq<char>, Tone)>>> = Seq::empty();
    assert(rows_view(rows@) =~= head + joined(parts));
    let mut k: usize = 0;
    while k < f.messages.len()
        invariant
            k <= f.messages@.len(),
            f.relative is Some,
            head == section_head(f.relative->0@),
            parts.len() == k,
            forall|i: int| 0 <= i < k ==> message_shown(f.messages@[i], f.contents, #[trigger] parts[i]),
            rows_view(rows@) == head + joined(parts),
            forall|i: int| 0 <= i < k ==> !message_fails(#[trigger] f.messages@[i], f.contents),
        decreases f.messages@.len() - k,
    {
        match render_message(&f.messages[k], &f.path, &f.contents) {
            Err(e) => {
                return Err(e);
            },
            Ok(mut more) => {
                let ghost before = rows@;
                let ghost part = rows_view(more@);
                let ghost more_before = more@;
                rows.append(&mut more);
                proof {
                    let next = parts.push(part);
                    assert(next.drop_last() =~= parts);
                    assert(next.last() == part);
                    assert(joined(next) == joined(parts) + part);
                    assert(rows@ =~= before + more_before);
                    assert(rows_view(rows@) =~= rows_view(before) + part);
                    assert(rows_view(rows@) =~= head + joined(next));
                    parts = next;
                }
            },
        }
        k = k + 1;
    }
    assert(parts_show(*f, parts));
    Ok(rows)
}

/// Everything shown for the findings of a set of files. With no files, a
/// single confirmation row and no sections. Otherwise one section per file,
/// in strictly ascending byte order of the absolute paths; rendering fails
/// exactly when some file cannot be shown.
pub fn render_lint_messages(files: &Vec<FileLints>) -> (r: Result<Report, RenderError>)
    requires
        distinct_paths(file_paths(files@)),
    ensures
        files@.len() == 0 ==> (r matches Ok(rep) && rep.printed == PrintedLintErrors::No
            && rep.sections@.len() == 0 && rows_view(rep.notice@) == seq![ok_row()]),
        files@.len() > 0 ==> (r is Ok <==> forall|i: int|
            0 <= i < files@.len() ==> file_ok(#[trigger] files@[i])),
        r matches Err(e) ==> exists|i: int|
            0 <= i < files@.len() && !file_ok(#[trigger] files@[i]) && file_error(files@[i], e)
                && first_failing(files@, i),
        files@.len() > 0 ==> (r matches Ok(rep) ==> {
            &&& rep.printed == PrintedLintErrors::Yes
            &&& rep.notice@.len() == 0
            &&& rep.sections@.len() == files@.len()
            &&& forall|i: int|
                0 <= i < rep.sections@.len() - 1 ==> bytes_lt(
                    key(#[trigger] rep.sections@[i].path),
                    key(rep.sections@[i + 1].path),
                )
            &&& forall|i: int| 0 <= i < rep.sections@.len() ==> shows_some(#[trigger] rep.sections@[i], files@)
        }),
{
    if files.len() == 0 {
        let mut row: Vec<Span> = Vec::new();
        row.push(literal("ok", Tone::Success));
        row.push(literal(" ", Tone::Plain));
        row.push(literal("No lint issues.", Tone::Plain));
        row.push(literal("\n", Tone::Plain));
        let mut notice: Vec<Vec<Span>> = Vec::new();
        assert(pieces(row@) =~= ok_row());
        notice.push(row);
        assert(rows_view(notice@) =~= seq![ok_row()]);
        return Ok(Report { printed: PrintedLintErrors::No, notice, sections: Vec::new() });
    }
    let mut paths: Vec<String> = Vec::new();
    let mut i: usize = 0;
    while i < files.len()
        invariant
            i <= files@.len(),
            paths@.len() == i,
            forall|k: int| 0 <= k < i ==> (#[trigger] paths@[k])@ == files@[k].path@,
        decreases files@.len() - i,
    {
        paths.push(files[i].path.clone());
        i = i + 1;
    }
    assert(distinct_paths(paths@)) by {
        assert forall|a: int, b: int|
            0 <= a < paths@.len() && 0 <= b < paths@.len() && a != b implies paths@[a]@ != paths@[b]@ by {
            assert(file_paths(files@)[a] == files@[a].path);
            assert(file_paths(files@)[b] == files@[b].path);
        }
    }
    let order = sorted_order(&paths);
    let n = files.len();
    let mut sections: Vec<Section> = Vec::new();
    let mut k: usize = 0;
    while k < n
        invariant
            n == files@.len(),
            n == paths@.len(),
            k <= n,
            is_permutation(order@, n as nat),
            covers(order@, n as nat),
            ascending(paths@, order@),
            sections@.len() == k,
            forall|a: int| 0 <= a < n ==> (#[trigger] paths@[a])@ == files@[a].path@,
            forall|a: int|
                0 <= a < k ==> shows_file(#[trigger] sections@[a], files@[order@[a] as int]),
            forall|a: int| 0 <= a < k ==> file_ok(#[trigger] files@[order@[a] as int]),
        decreases n - k,
    {
        let f = &files[order[k]];
        match render_file(f) {
            Err(e) => {
                proof {
                    let i = order@[k as int] as int;
                    assert forall|j: int|
                        0 <= j < files@.len() && bytes_lt(
                            key(#[trigger] files@[j].path),
                            key(files@[i].path),
                        ) implies file_ok(files@[j]) by {
                        assert(order@.contains(j as usize));
                        let a = choose|a: int| 0 <= a < order@.len() && order@[a] == j as usize;
                        assert(key(files@[j].path) == key(paths@[j]));
                        assert(key(files@[i].path) == key(paths@[i]));
                        if a >= k {
                            lemma_ascending_from(paths@, order@, k as int, a);
                            if a == k {
                                lemma_bytes_irreflexive(key(paths@[i]));
                            } else {
                                lemma_bytes_trans(key(paths@[i]), key(paths@[j]), key(paths@[i]));
                                lemma_bytes_irreflexive(key(paths@[i]));
                            }
                        }
                    }
                }
                return Err(e);
            },
            Ok(rows) => {
                sections.push(Section { path: f.path.clone(), rows });
            },
        }
        k = k + 1;
    }
    proof {
        assert forall|j: int| 0 <= j < n implies file_ok(#[trigger] files@[j]) by {
            assert(covers(order@, n as nat));
            assert(order@.contains(j as usize));
            let a = choose|a: int| 0 <= a < order@.len() && order@[a] == j as usize;
            assert(file_ok(files@[order@[a] as int]));
        }
        assert forall|a: int| 0 <= a < sections@.len() - 1 implies bytes_lt(
            key(#[trigger] sections@[a].path),
            key(sections@[a + 1].path),
        ) by {
            assert(sections@[a].path@ == paths@[order@[a] as int]@);
            assert(sections@[a + 1].path@ == paths@[order@[a + 1] as int]@);
        }
        assert forall|a: int| 0 <= a < sections@.len() implies shows_some(#[trigger] sections@[a], files@) by {
            assert(shows_file(sections@[a], files@[order@[a] as int]));
        }
    }
    Ok(Report { printed: PrintedLintErrors::Yes, notice: Vec::new(), sections })
}

} // verus!
