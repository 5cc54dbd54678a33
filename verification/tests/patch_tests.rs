use editor_core::diff_lines::DiffLineType;
use editor_core::patch::{lines_from_patch, parse_diff_to_lines, PatchLine};

fn record(origin: char, content: &str, old: Option<u32>, new: Option<u32>) -> PatchLine {
    PatchLine { origin, content: content.as_bytes().to_vec(), old_lineno: old, new_lineno: new }
}

#[test]
fn patch_lines_are_classified_by_origin() {
    let patch = vec![
        record('F', "diff --git a/f b/f\n", None, None),
        record('H', "@@ -1,2 +1,2 @@\n", None, None),
        record(' ', "same\n", Some(1), Some(1)),
        record('-', "old\n", Some(2), None),
        record('+', "new\n\n", Some(9), Some(2)),
        record('>', "\n\\ No newline at end of file\n", None, None),
        record('B', "binary", None, None),
    ];
    let lines = lines_from_patch(&patch);
    assert_eq!(lines.len(), 5);
    assert_eq!(lines[0].line_type, DiffLineType::Header);
    assert_eq!(lines[0].content, "diff --git a/f b/f\n");
    assert_eq!(lines[1].line_type, DiffLineType::Header);
    assert_eq!(lines[1].content, "@@ -1,2 +1,2 @@\n");
    assert_eq!(lines[2].line_type, DiffLineType::Context);
    assert_eq!(lines[2].content, "same");
    assert_eq!((lines[2].old_line_number, lines[2].new_line_number), (Some(1), Some(1)));
    assert_eq!(lines[3].line_type, DiffLineType::Removed);
    assert_eq!(lines[3].content, "old");
    assert_eq!((lines[3].old_line_number, lines[3].new_line_number), (Some(2), None));
    assert_eq!(lines[4].line_type, DiffLineType::Added);
    // every trailing newline goes; an added line has no old number
    assert_eq!(lines[4].content, "new");
    assert_eq!((lines[4].old_line_number, lines[4].new_line_number), (None, Some(2)));
}

#[test]
fn invalid_utf8_is_replaced() {
    let patch = vec![PatchLine { origin: '+', content: vec![0x61, 0xff, 0x0a], old_lineno: None, new_lineno: Some(1) }];
    let lines = lines_from_patch(&patch);
    assert_eq!(lines[0].content, "a\u{fffd}");
}

#[test]
fn parse_diff_to_lines_reads_a_patch() {
    let text = [
        "diff --git a/f.txt b/f.txt\n",
        "index 3b18e51..ea8a1c8 100644\n",
        "--- a/f.txt\n",
        "+++ b/f.txt\n",
        "@@ -1,3 +1,3 @@\n",
        " one\n",
        "-two\n",
        "+deux\n",
        " three\n",
    ]
    .join("");
    let mut diff = git2::Diff::from_buffer(text.as_bytes()).unwrap();
    let lines = parse_diff_to_lines(&mut diff).unwrap();
    let kinds: Vec<DiffLineType> = lines.iter().map(|l| l.line_type).collect();
    assert_eq!(
        kinds,
        vec![
            DiffLineType::Header,
            DiffLineType::Header,
            DiffLineType::Context,
            DiffLineType::Removed,
            DiffLineType::Added,
            DiffLineType::Context,
        ]
    );
    assert_eq!(lines[3].content, "two");
    assert_eq!(lines[3].old_line_number, Some(2));
    assert_eq!(lines[4].content, "deux");
    assert_eq!(lines[4].new_line_number, Some(2));
    assert_eq!(lines[5].old_line_number, Some(3));
    assert_eq!(lines[5].new_line_number, Some(3));
}
