use lintrender::chain::render_error_chain;
use lintrender::diff::{format_diff, ChangeKind, LineChange, Segment, render_hunks};
use lintrender::message::{render_message, LintMessage, RenderError};
use lintrender::report::{render_lint_messages, FileLints, PrintedLintErrors};
use lintrender::style::{Severity, Span, Tone};
use lintrender::text::{bspaces, spaces};
use lintrender::window::{extract_window, render_window, window_bounds, WindowError};

fn row_text(row: &Vec<Span>) -> String {
    row.iter().map(|s| s.text.clone()).collect()
}

fn all_text(rows: &Vec<Vec<Span>>) -> String {
    rows.iter().map(row_text).collect()
}

fn signs(rows: &Vec<Vec<Span>>) -> Vec<(Tone, String)> {
    let mut out = Vec::new();
    for row in rows {
        for s in row {
            if s.tone == Tone::RemovedSign || s.tone == Tone::AddedSign || s.tone == Tone::UnchangedSign {
                out.push((s.tone, row_text(row)));
            }
        }
    }
    out
}

fn message(severity: Severity) -> LintMessage {
    LintMessage {
        severity,
        code: "LINTER".to_string(),
        name: "prefer-this".to_string(),
        description: None,
        original: None,
        replacement: None,
        line: None,
    }
}

fn ten_lines() -> String {
    (1..=10).map(|i| format!("line{}\n", i)).collect()
}

#[test]
fn window_bounds_around_middle_line() {
    assert_eq!(window_bounds(10, 5), Some((1, 7)));
}

#[test]
fn window_bounds_at_first_line() {
    assert_eq!(window_bounds(10, 1), Some((0, 3)));
    assert_eq!(window_bounds(10, 0), Some((0, 3)));
    assert_eq!(window_bounds(1, 1), Some((0, 0)));
}

#[test]
fn window_bounds_at_last_line() {
    assert_eq!(window_bounds(10, 10), Some((6, 9)));
    assert_eq!(window_bounds(2, 2), Some((0, 1)));
}

#[test]
fn window_bounds_past_end() {
    assert_eq!(window_bounds(10, 11), None);
    assert_eq!(window_bounds(0, 1), None);
    assert_eq!(window_bounds(3, usize::MAX), None);
}

#[test]
fn window_bounds_large_line_numbers() {
    assert_eq!(window_bounds(usize::MAX, usize::MAX), Some((usize::MAX - 4, usize::MAX - 1)));
}

#[test]
fn extract_window_lines_and_target() {
    let w = extract_window(&ten_lines(), 5).ok().unwrap();
    let numbers: Vec<usize> = w.lines.iter().map(|l| l.0).collect();
    assert_eq!(numbers, vec![2, 3, 4, 5, 6, 7, 8]);
    assert_eq!(w.lines[0].1, "line2\n");
    assert_eq!(w.target, 3);
}

#[test]
fn extract_window_keeps_missing_terminator() {
    let w = extract_window("a\r\nb\nc", 3).ok().unwrap();
    let texts: Vec<String> = w.lines.iter().map(|l| l.1.clone()).collect();
    assert_eq!(texts, vec!["a\r\n".to_string(), "b\n".to_string(), "c".to_string()]);
    assert_eq!(w.target, 2);
}

#[test]
fn extract_window_line_mismatch() {
    assert!(matches!(extract_window(&ten_lines(), 11), Err(WindowError::LineMismatch)));
    assert!(matches!(extract_window("", 1), Err(WindowError::LineMismatch)));
}

#[test]
fn render_window_marks_target() {
    let rows = render_window(&ten_lines(), 5).ok().unwrap();
    assert_eq!(rows.len(), 7);
    assert_eq!(row_text(&rows[3]), "    >>> 5  |line5\n");
    assert_eq!(row_text(&rows[0]), "        2  |line2\n");
    assert_eq!(rows[3][3].tone, Tone::Highlight);
    assert_eq!(rows[0][3].tone, Tone::Plain);
    assert_eq!(rows[0][1].tone, Tone::Dim);
}

#[test]
fn render_window_two_digit_numbers() {
    let rows = render_window(&ten_lines(), 10).ok().unwrap();
    assert_eq!(row_text(&rows[3]), "    >>> 10  |line10\n");
}

#[test]
fn diff_of_one_changed_line() {
    let rows = format_diff("foo\n", "bar\n");
    let s = signs(&rows);
    assert_eq!(s.len(), 2);
    assert_eq!(s[0], (Tone::RemovedSign, "    1        |-foo\n".to_string()));
    assert_eq!(s[1], (Tone::AddedSign, "        1    |+bar\n".to_string()));
}

#[test]
fn diff_of_identical_texts_has_no_changes() {
    let text = "a\nb\nc\n";
    let rows = format_diff(text, text);
    assert!(signs(&rows).iter().all(|(t, _)| *t == Tone::UnchangedSign));
    assert!(rows.is_empty());
}

#[test]
fn diff_of_empty_original_is_all_insertions() {
    let rows = format_diff("", "x\ny\n");
    let s = signs(&rows);
    assert_eq!(s.len(), 2);
    assert!(s.iter().all(|(t, _)| *t == Tone::AddedSign));
    assert_eq!(all_text(&rows), "        1    |+x\n        2    |+y\n");
    assert_eq!(s[0].1, "        1    |+x\n");
    assert_eq!(s[1].1, "        2    |+y\n");
}

#[test]
fn diff_of_empty_replacement_is_all_deletions() {
    let rows = format_diff("x\n", "");
    let s = signs(&rows);
    assert_eq!(s.len(), 1);
    assert_eq!(s[0], (Tone::RemovedSign, "    1        |-x\n".to_string()));
}

#[test]
fn diff_adds_newline_where_text_lacks_one() {
    let rows = format_diff("a", "b");
    assert_eq!(all_text(&rows), "    1        |-a\n        1    |+b\n");
}

#[test]
fn diff_separates_distant_hunks() {
    let old: String = (1..=20).map(|i| format!("{}\n", i)).collect();
    let new: String = (1..=20)
        .map(|i| match i {
            2 => "two\n".to_string(),
            19 => "nineteen\n".to_string(),
            _ => format!("{}\n", i),
        })
        .collect();
    let rows = format_diff(&old, &new);
    let rule = format!("{}\n", "-".repeat(80));
    let separators = rows.iter().filter(|r| row_text(r) == rule).count();
    assert_eq!(separators, 1);
    let context = signs(&rows).iter().filter(|(t, _)| *t == Tone::UnchangedSign).count();
    assert_eq!(context, 1 + 3 + 3 + 1);
}

#[test]
fn diff_round_trip_is_symmetric() {
    let a = "one\ntwo\nthree\n";
    let b = "one\n2\nthree\nfour\n";
    let forward = signs(&format_diff(a, b));
    let backward = signs(&format_diff(b, a));
    let body = |t: &String| t.rsplit('|').next().unwrap()[1..].to_string();
    let mut added: Vec<String> = forward.iter().filter(|x| x.0 == Tone::AddedSign).map(|x| body(&x.1)).collect();
    let mut removed: Vec<String> = backward.iter().filter(|x| x.0 == Tone::RemovedSign).map(|x| body(&x.1)).collect();
    added.sort();
    removed.sort();
    assert_eq!(added, removed);
    let mut removed_fwd: Vec<String> = forward.iter().filter(|x| x.0 == Tone::RemovedSign).map(|x| body(&x.1)).collect();
    let mut added_back: Vec<String> = backward.iter().filter(|x| x.0 == Tone::AddedSign).map(|x| body(&x.1)).collect();
    removed_fwd.sort();
    added_back.sort();
    assert_eq!(removed_fwd, added_back);
}

#[test]
fn render_hunks_exact_rows() {
    let change = LineChange {
        kind: ChangeKind::Delete,
        old_index: Some(11),
        new_index: None,
        segments: vec![
            Segment { emphasized: false, text: "ab".to_string() },
            Segment { emphasized: true, text: "c".to_string() },
        ],
        missing_newline: true,
    };
    let other = LineChange {
        kind: ChangeKind::Equal,
        old_index: Some(0),
        new_index: Some(0),
        segments: vec![Segment { emphasized: false, text: "z\n".to_string() }],
        missing_newline: false,
    };
    let rows = render_hunks(&vec![vec![change], vec![other]]);
    assert_eq!(rows.len(), 3);
    assert_eq!(row_text(&rows[0]), "    12       |-abc\n");
    assert_eq!(rows[0][6].tone, Tone::RemovedEmphasis);
    assert_eq!(rows[0][5].tone, Tone::Removed);
    assert_eq!(row_text(&rows[1]), format!("{}\n", "-".repeat(80)));
    assert_eq!(row_text(&rows[2]), "    1   1    | z\n");
}

#[test]
fn render_hunks_empty() {
    assert!(render_hunks(&vec![]).is_empty());
}

#[test]
fn message_header_and_description() {
    let mut m = message(Severity::Warning);
    m.description = Some("word ".repeat(40));
    let rows = render_message(&m, &"/a.txt".to_string(), &None).ok().unwrap();
    assert_eq!(row_text(&rows[0]), "  Warning (LINTER) prefer-this\n");
    assert_eq!(rows[0][1].tone, Tone::NoticeBanner);
    assert_eq!(rows[0][5].tone, Tone::Underlined);
    assert!(rows.len() > 2);
    for row in &rows[1..] {
        let t = row_text(row);
        assert!(t.starts_with("    word"));
        assert!(t.trim_end_matches('\n').len() <= 78);
    }
}

#[test]
fn message_error_banner() {
    let rows = render_message(&message(Severity::Error), &"/a.txt".to_string(), &None).ok().unwrap();
    assert_eq!(rows.len(), 1);
    assert_eq!(rows[0][1].tone, Tone::AlertBanner);
    assert_eq!(rows[0][1].text, "Error");
}

#[test]
fn message_file_read_error() {
    let mut m = message(Severity::Advice);
    m.line = Some(2);
    match render_message(&m, &"/gone.txt".to_string(), &None) {
        Err(RenderError::FileRead(p)) => assert_eq!(p, "/gone.txt"),
        _ => panic!("expected a file read error"),
    }
}

#[test]
fn message_line_mismatch() {
    let mut m = message(Severity::Disabled);
    m.line = Some(12);
    let r = render_message(&m, &"/a.txt".to_string(), &Some(ten_lines()));
    assert!(matches!(r, Err(RenderError::LineMismatch)));
}

#[test]
fn report_of_no_files() {
    let report = render_lint_messages(&vec![]).ok().unwrap();
    assert_eq!(report.printed, PrintedLintErrors::No);
    assert!(report.sections.is_empty());
    assert_eq!(report.notice.len(), 1);
    assert_eq!(row_text(&report.notice[0]), "ok No lint issues.\n");
    assert_eq!(report.notice[0][0].tone, Tone::Success);
}

fn file(path: &str, messages: Vec<LintMessage>, contents: Option<String>) -> FileLints {
    FileLints {
        path: path.to_string(),
        relative: Some(path.trim_start_matches('/').to_string()),
        messages,
        contents,
    }
}

#[test]
fn report_orders_files_by_path() {
    let files = vec![
        file("/b.txt", vec![message(Severity::Error)], None),
        file("/a/z.txt", vec![message(Severity::Error)], None),
        file("/a.txt", vec![message(Severity::Error)], None),
        file("/B.txt", vec![], None),
    ];
    let report = render_lint_messages(&files).ok().unwrap();
    let order: Vec<String> = report.sections.iter().map(|s| s.path.clone()).collect();
    assert_eq!(order, vec!["/B.txt", "/a.txt", "/a/z.txt", "/b.txt"]);
    assert_eq!(report.printed, PrintedLintErrors::Yes);
}

#[test]
fn report_with_diff_finding() {
    let mut m = message(Severity::Error);
    m.original = Some("foo\n".to_string());
    m.replacement = Some("bar\n".to_string());
    let report = render_lint_messages(&vec![file("/a.txt", vec![m], None)]).ok().unwrap();
    assert_eq!(report.printed, PrintedLintErrors::Yes);
    let rows = &report.sections[0].rows;
    assert_eq!(row_text(&rows[0]), "\n\n");
    assert_eq!(row_text(&rows[1]), ">>> Lint for a.txt:\n\n");
    assert_eq!(rows[1][2].tone, Tone::Underlined);
    assert_eq!(rows[2][1].tone, Tone::AlertBanner);
    let s = signs(rows);
    assert_eq!(s.len(), 2);
    assert_eq!(s[0], (Tone::RemovedSign, "    1        |-foo\n".to_string()));
    assert_eq!(s[1], (Tone::AddedSign, "        1    |+bar\n".to_string()));
    assert_eq!(row_text(&rows[3]), "\n");
    assert_eq!(row_text(rows.last().unwrap()), "\n");
}

#[test]
fn report_with_line_finding() {
    let mut m = message(Severity::Warning);
    m.line = Some(5);
    let report = render_lint_messages(&vec![file("/a.txt", vec![m], Some(ten_lines()))]).ok().unwrap();
    assert_eq!(report.printed, PrintedLintErrors::Yes);
    let text = all_text(&report.sections[0].rows);
    for n in 2..=8 {
        assert!(text.contains(&format!(" {}  |line{}\n", n, n)));
    }
    assert!(!text.contains("line1\n"));
    assert!(!text.contains("line9\n"));
    assert!(text.contains("    >>> 5  |line5\n"));
    assert_eq!(text.matches(">>> 5").count(), 1);
}

#[test]
fn report_line_mismatch_error() {
    let mut m = message(Severity::Warning);
    m.line = Some(11);
    let r = render_lint_messages(&vec![file("/a.txt", vec![m], Some(ten_lines()))]);
    assert!(matches!(r, Err(RenderError::LineMismatch)));
}

#[test]
fn report_first_failing_file_in_path_order() {
    let mut m = message(Severity::Warning);
    m.line = Some(1);
    let mut unresolved = file("/b.txt", vec![], None);
    unresolved.relative = None;
    let unread = file("/a.txt", vec![m], None);
    match render_lint_messages(&vec![unresolved, unread]) {
        Err(RenderError::FileRead(p)) => assert_eq!(p, "/a.txt"),
        _ => panic!("expected a file read error for the first path"),
    }
}

#[test]
fn report_path_resolution_error() {
    let mut f = file("/a.txt", vec![], None);
    f.relative = None;
    match render_lint_messages(&vec![f]) {
        Err(RenderError::PathResolution(p)) => assert_eq!(p, "/a.txt"),
        _ => panic!("expected a path resolution error"),
    }
}

#[test]
fn error_chain_labels() {
    let chain = vec!["top".to_string(), "middle".to_string(), "root".to_string()];
    let rows = render_error_chain(&chain);
    assert_eq!(rows.len(), 3);
    assert_eq!(rows[0][0].text, "error:");
    assert_eq!(rows[0][0].tone, Tone::ErrorLabel);
    assert_eq!(row_text(&rows[0]), "error: top\n");
    assert_eq!(rows[1][0].text, "caused_by:");
    assert_eq!(row_text(&rows[1]), "caused_by:  middle\n");
    assert_eq!(rows[2][0].text, "caused_by:");
    assert!(row_text(&rows[2]).ends_with("root\n"));
}

#[test]
fn error_chain_hanging_indent() {
    let chain = vec!["first\nsecond".to_string(), "x\ny\n".to_string()];
    let rows = render_error_chain(&chain);
    assert_eq!(row_text(&rows[0]), "error: first\n       second\n");
    assert_eq!(row_text(&rows[1]), "caused_by:  x\n           y\n\n");
}

#[test]
fn error_chain_empty() {
    assert!(render_error_chain(&vec![]).is_empty());
}

#[test]
fn error_with_two_causes() {
    let err = anyhow::Error::msg("root").context("middle").context("top");
    let chain: Vec<String> = err.chain().map(|e| e.to_string()).collect();
    let rows = render_error_chain(&chain);
    let labels: Vec<String> = rows.iter().map(|r| r[0].text.clone()).collect();
    assert_eq!(labels, vec!["error:", "caused_by:", "caused_by:"]);
    assert!(row_text(&rows[0]).ends_with("top\n"));
    assert!(row_text(&rows[1]).ends_with("middle\n"));
    assert!(row_text(&rows[2]).ends_with("root\n"));
}

#[test]
fn space_runs() {
    assert_eq!(bspaces(3), b"   ".to_vec());
    assert_eq!(bspaces(0), Vec::<u8>::new());
    assert_eq!(spaces(4), "    ");
}

#[test]
fn severity_labels() {
    assert_eq!(Severity::Advice.label(), "Advice");
    assert_eq!(Severity::Disabled.label(), "Disabled");
}
