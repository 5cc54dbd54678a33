use editor_core::diff_lines::{create_diff_lines, DiffLineType, GitDiffLine};
use editor_core::lcs::longest_common_subsequence;

fn kinds(lines: &[GitDiffLine]) -> Vec<DiffLineType> {
    lines.iter().map(|l| l.line_type).collect()
}

fn contents(lines: &[GitDiffLine]) -> Vec<String> {
    lines.iter().map(|l| l.content.clone()).collect()
}

#[test]
fn lcs_of_empty_inputs_is_empty() {
    assert_eq!(longest_common_subsequence(&[], &["a"]), vec![]);
    assert_eq!(longest_common_subsequence(&["a"], &[]), vec![]);
    assert_eq!(longest_common_subsequence(&[], &[]), vec![]);
}

#[test]
fn lcs_finds_matching_lines_in_order() {
    let old = ["a", "b", "c", "d"];
    let new = ["a", "c", "x", "d"];
    assert_eq!(longest_common_subsequence(&old, &new), vec![(0, 0), (2, 1), (3, 3)]);
}

#[test]
fn lcs_prefers_dropping_new_line_on_tie() {
    // "a" and "b" swapped: both one-line answers are longest; the walk back
    // drops a new line when the two choices are equally long, and so keeps "b".
    let old = ["a", "b"];
    let new = ["b", "a"];
    assert_eq!(longest_common_subsequence(&old, &new), vec![(1, 0)]);
}

#[test]
fn lcs_of_identical_texts_is_the_diagonal() {
    let text = ["x", "y", "z"];
    assert_eq!(longest_common_subsequence(&text, &text), vec![(0, 0), (1, 1), (2, 2)]);
}

#[test]
fn lcs_length_is_maximal() {
    let old = ["a", "b", "c", "b", "d", "a", "b"];
    let new = ["b", "d", "c", "a", "b", "a"];
    // The classic example: a longest common subsequence has four lines.
    let pairs = longest_common_subsequence(&old, &new);
    assert_eq!(pairs.len(), 4);
    for w in pairs.windows(2) {
        assert!(w[0].0 < w[1].0 && w[0].1 < w[1].1);
    }
    for &(i, j) in &pairs {
        assert_eq!(old[i], new[j]);
    }
}

#[test]
fn diff_of_identical_texts_is_all_context() {
    let text = ["one", "two"];
    let d = create_diff_lines(&text, &text);
    assert_eq!(kinds(&d), vec![DiffLineType::Context, DiffLineType::Context]);
    assert_eq!(d[0].old_line_number, Some(1));
    assert_eq!(d[0].new_line_number, Some(1));
    assert_eq!(d[1].old_line_number, Some(2));
    assert_eq!(d[1].new_line_number, Some(2));
}

#[test]
fn diff_against_empty_old_adds_every_line() {
    let d = create_diff_lines(&[], &["p", "q"]);
    assert_eq!(kinds(&d), vec![DiffLineType::Added, DiffLineType::Added]);
    assert_eq!(contents(&d), vec!["p", "q"]);
    assert_eq!(d[0].old_line_number, None);
    assert_eq!(d[1].new_line_number, Some(2));
}

#[test]
fn diff_to_empty_new_removes_every_line() {
    let d = create_diff_lines(&["p", "q"], &[]);
    assert_eq!(kinds(&d), vec![DiffLineType::Removed, DiffLineType::Removed]);
    assert_eq!(d[1].old_line_number, Some(2));
    assert_eq!(d[1].new_line_number, None);
}

#[test]
fn diff_shows_removals_before_additions() {
    let old = ["a", "b", "c"];
    let new = ["a", "x", "c", "d"];
    let d = create_diff_lines(&old, &new);
    assert_eq!(
        kinds(&d),
        vec![
            DiffLineType::Context,
            DiffLineType::Removed,
            DiffLineType::Added,
            DiffLineType::Context,
            DiffLineType::Added,
        ]
    );
    assert_eq!(contents(&d), vec!["a", "b", "x", "c", "d"]);
    let numbers: Vec<(Option<u32>, Option<u32>)> =
        d.iter().map(|l| (l.old_line_number, l.new_line_number)).collect();
    assert_eq!(
        numbers,
        vec![
            (Some(1), Some(1)),
            (Some(2), None),
            (None, Some(2)),
            (Some(3), Some(3)),
            (None, Some(4)),
        ]
    );
}

#[test]
fn diff_restores_both_texts() {
    let old = ["a", "b", "c", "b", "d", "a", "b"];
    let new = ["b", "d", "c", "a", "b", "a"];
    let d = create_diff_lines(&old, &new);
    let old_side: Vec<String> = d
        .iter()
        .filter(|l| matches!(l.line_type, DiffLineType::Removed | DiffLineType::Context))
        .map(|l| l.content.clone())
        .collect();
    let new_side: Vec<String> = d
        .iter()
        .filter(|l| matches!(l.line_type, DiffLineType::Added | DiffLineType::Context))
        .map(|l| l.content.clone())
        .collect();
    assert_eq!(old_side, old.to_vec());
    assert_eq!(new_side, new.to_vec());
    let context = d.iter().filter(|l| l.line_type == DiffLineType::Context).count();
    assert_eq!(context, 4);
    for l in &d {
        if let Some(n) = l.old_line_number {
            assert_eq!(old[(n - 1) as usize], l.content);
        }
        if let Some(n) = l.new_line_number {
            assert_eq!(new[(n - 1) as usize], l.content);
        }
    }
}

#[test]
fn swapped_diff_swaps_added_and_removed_counts() {
    let a = ["a", "b", "c", "b", "d", "a", "b"];
    let b = ["b", "d", "c", "a", "b", "a"];
    let count = |d: &[GitDiffLine], k: DiffLineType| d.iter().filter(|l| l.line_type == k).count();
    let r = create_diff_lines(&a, &b);
    let s = create_diff_lines(&b, &a);
    assert_eq!(count(&s, DiffLineType::Context), count(&r, DiffLineType::Context));
    assert_eq!(count(&s, DiffLineType::Added), count(&r, DiffLineType::Removed));
    assert_eq!(count(&s, DiffLineType::Removed), count(&r, DiffLineType::Added));
    assert_eq!(count(&r, DiffLineType::Removed), 3);
    assert_eq!(count(&r, DiffLineType::Added), 2);
}

#[test]
fn lcs_length_is_symmetric_and_grows_by_at_most_one() {
    let a = ["a", "b", "c", "b", "d", "a", "b"];
    let b = ["b", "d", "c", "a", "b", "a"];
    assert_eq!(longest_common_subsequence(&a, &b).len(), longest_common_subsequence(&b, &a).len());
    let n = longest_common_subsequence(&a, &b).len();
    let mut a2 = a.to_vec();
    a2.push("a");
    // "bcaba" is now common
    assert_eq!(longest_common_subsequence(&a2, &b).len(), n + 1);
    let mut b2 = b.to_vec();
    b2.push("z");
    assert_eq!(longest_common_subsequence(&a, &b2).len(), n);
}
