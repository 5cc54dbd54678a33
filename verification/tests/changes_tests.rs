use editor_core::changes::{
    commit_delta_path, commit_file_diff, content_file_diff, find_delta_for_file,
    plan_commit_image, plan_worktree_image, status_flags, text_diff_target, worktree_file_diff,
    BlobSource, DeltaInfo, DeltaStatus, diff_base, locate_file_delta, no_changes_error,
    is_image_file, parse_commit_hash, DeltaPick, DiffBase,
};
use editor_core::diff_lines::{DiffLineType, GitDiffLine};
use editor_core::text::encode_base64;

fn delta(status: DeltaStatus, old: Option<&str>, new: Option<&str>) -> DeltaInfo {
    DeltaInfo { status, old_path: old.map(|s| s.to_string()), new_path: new.map(|s| s.to_string()) }
}

fn path_of(s: &Option<BlobSource>) -> Option<(char, String)> {
    match s {
        None => None,
        Some(BlobSource::OldBlob { path }) => Some(('o', path.clone())),
        Some(BlobSource::NewBlob { path }) => Some(('n', path.clone())),
        Some(BlobSource::WorkingFile { path }) => Some(('w', path.clone())),
        Some(BlobSource::ParentTreeEntry { lookup, path }) => {
            Some(('p', format!("{}|{}", lookup.clone().unwrap_or_default(), path)))
        }
    }
}

#[test]
fn base64_matches_rfc_examples() {
    assert_eq!(encode_base64(b""), "");
    assert_eq!(encode_base64(b"f"), "Zg==");
    assert_eq!(encode_base64(b"fo"), "Zm8=");
    assert_eq!(encode_base64(b"foo"), "Zm9v");
    assert_eq!(encode_base64(b"foobar"), "Zm9vYmFy");
    assert_eq!(encode_base64(&[0xfb, 0xff]), "+/8=");
}

#[test]
fn first_delta_touching_the_file_is_found() {
    let deltas = vec![
        delta(DeltaStatus::Modified, Some("a.txt"), Some("a.txt")),
        delta(DeltaStatus::Renamed, Some("old.png"), Some("new.png")),
        delta(DeltaStatus::Added, None, Some("new.png")),
    ];
    assert_eq!(find_delta_for_file(&deltas, &"new.png".to_string()), Some(1));
    assert_eq!(find_delta_for_file(&deltas, &"old.png".to_string()), Some(1));
    assert_eq!(find_delta_for_file(&deltas, &"a.txt".to_string()), Some(0));
    assert_eq!(find_delta_for_file(&deltas, &"b.txt".to_string()), None);
    assert_eq!(find_delta_for_file(&vec![], &"b.txt".to_string()), None);
}

#[test]
fn status_flags_follow_the_delta() {
    assert_eq!(status_flags(DeltaStatus::Added), (true, false, false));
    assert_eq!(status_flags(DeltaStatus::Deleted), (false, true, false));
    assert_eq!(status_flags(DeltaStatus::Renamed), (false, false, true));
    assert_eq!(status_flags(DeltaStatus::Modified), (false, false, false));
}

#[test]
fn worktree_image_plans() {
    let file = "img.png".to_string();
    let none: Option<String> = None;
    let p = plan_worktree_image(DeltaStatus::Added, true, &none, &Some(file.clone()), &file);
    assert_eq!(path_of(&p.old), None);
    assert_eq!(path_of(&p.new), Some(('n', file.clone())));
    let p = plan_worktree_image(DeltaStatus::Added, false, &none, &Some(file.clone()), &file);
    assert_eq!(path_of(&p.new), Some(('w', file.clone())));
    let p = plan_worktree_image(DeltaStatus::Deleted, false, &Some("gone.png".into()), &none, &file);
    assert_eq!(path_of(&p.old), Some(('o', "gone.png".to_string())));
    assert_eq!(path_of(&p.new), None);
    let p = plan_worktree_image(
        DeltaStatus::Renamed,
        false,
        &Some("a.png".into()),
        &Some("b.png".into()),
        &file,
    );
    assert_eq!(path_of(&p.old), Some(('o', "a.png".to_string())));
    assert_eq!(path_of(&p.new), Some(('w', "b.png".to_string())));
    let p = plan_worktree_image(DeltaStatus::Renamed, true, &none, &none, &file);
    assert_eq!(path_of(&p.old), Some(('o', file.clone())));
    assert_eq!(path_of(&p.new), Some(('n', file.clone())));
    let p = plan_worktree_image(
        DeltaStatus::Modified,
        true,
        &Some("x.png".into()),
        &Some("x.png".into()),
        &file,
    );
    assert_eq!(path_of(&p.old), Some(('o', file.clone())));
    assert_eq!(path_of(&p.new), Some(('n', file.clone())));
}

#[test]
fn text_target_follows_the_surviving_path() {
    let file = "f".to_string();
    assert_eq!(text_diff_target(DeltaStatus::Deleted, &Some("old".into()), &Some("new".into()), &file), "old");
    assert_eq!(text_diff_target(DeltaStatus::Modified, &Some("old".into()), &Some("new".into()), &file), "new");
    assert_eq!(text_diff_target(DeltaStatus::Modified, &None, &None, &file), "f");
}

#[test]
fn worktree_diff_of_image_has_no_lines() {
    let line = GitDiffLine {
        line_type: DiffLineType::Added,
        content: "x".into(),
        old_line_number: None,
        new_line_number: Some(1),
    };
    let d = worktree_file_diff(
        "p.png".into(),
        delta(DeltaStatus::Added, None, Some("p.png")),
        None,
        Some("AAA=".into()),
        vec![line.clone()],
    );
    assert!(d.is_new && !d.is_deleted && !d.is_renamed && d.is_binary && d.is_image);
    assert!(d.lines.is_empty());
    assert_eq!(d.new_blob_base64.as_deref(), Some("AAA="));
    let d = worktree_file_diff(
        "t.txt".into(),
        delta(DeltaStatus::Modified, Some("t.txt"), Some("t.txt")),
        None,
        None,
        vec![line],
    );
    assert!(!d.is_binary && d.lines.len() == 1);
    assert_eq!(d.old_path.as_deref(), Some("t.txt"));
}

#[test]
fn commit_paths_and_plans() {
    let none: Option<String> = None;
    assert_eq!(commit_delta_path(DeltaStatus::Deleted, &Some("o".into()), &Some("n".into())), "o");
    assert_eq!(commit_delta_path(DeltaStatus::Deleted, &none, &Some("n".into())), "");
    assert_eq!(commit_delta_path(DeltaStatus::Modified, &Some("o".into()), &Some("n".into())), "n");
    assert_eq!(commit_delta_path(DeltaStatus::Modified, &Some("o".into()), &none), "o");
    assert_eq!(commit_delta_path(DeltaStatus::Added, &none, &none), "");

    let p = plan_commit_image(DeltaStatus::Added, true, &none, &Some("n.png".into()));
    assert_eq!(path_of(&p.old), None);
    assert_eq!(path_of(&p.new), Some(('n', "n.png".to_string())));
    let p = plan_commit_image(DeltaStatus::Deleted, true, &Some("o.png".into()), &none);
    assert_eq!(path_of(&p.old), Some(('p', "o.png|o.png".to_string())));
    assert_eq!(path_of(&p.new), None);
    let p = plan_commit_image(DeltaStatus::Renamed, false, &Some("o.png".into()), &Some("n.png".into()));
    assert_eq!(path_of(&p.old), Some(('o', "o.png".to_string())));
    assert_eq!(path_of(&p.new), Some(('n', "n.png".to_string())));

    let d = commit_file_diff(delta(DeltaStatus::Deleted, Some("gone.txt"), None), None, None, vec![]);
    assert_eq!(d.file_path, "gone.txt");
    assert!(d.is_deleted && !d.is_binary);
}

#[test]
fn buffer_of_new_file_is_all_added() {
    let d = content_file_diff("n.txt".into(), "a\nb\n".into(), None, None);
    assert!(d.is_new && !d.is_deleted && !d.is_renamed);
    assert_eq!(d.old_path.as_deref(), Some("n.txt"));
    assert_eq!(d.new_path.as_deref(), Some("n.txt"));
    let got: Vec<(DiffLineType, String, Option<u32>)> =
        d.lines.iter().map(|l| (l.line_type, l.content.clone(), l.new_line_number)).collect();
    assert_eq!(
        got,
        vec![
            (DiffLineType::Added, "a".to_string(), Some(1)),
            (DiffLineType::Added, "b".to_string(), Some(2)),
        ]
    );
}

#[test]
fn empty_buffer_of_new_file_has_no_lines() {
    let d = content_file_diff("n.txt".into(), String::new(), None, None);
    assert!(d.is_new && !d.is_deleted);
    assert!(d.lines.is_empty());
}

#[test]
fn buffer_against_base_is_a_line_diff() {
    let base = b"one\r\ntwo\nthree".to_vec();
    let d = content_file_diff("f.txt".into(), "one\ntwo!\nthree\n".into(), Some(base), None);
    assert!(!d.is_new && !d.is_deleted);
    let got: Vec<(DiffLineType, String)> = d.lines.iter().map(|l| (l.line_type, l.content.clone())).collect();
    assert_eq!(
        got,
        vec![
            (DiffLineType::Context, "one".to_string()),
            (DiffLineType::Removed, "two".to_string()),
            (DiffLineType::Added, "two!".to_string()),
            (DiffLineType::Context, "three".to_string()),
        ]
    );
}

#[test]
fn emptied_buffer_is_a_deletion() {
    let d = content_file_diff("f.txt".into(), String::new(), Some(b"x\ny\n".to_vec()), None);
    assert!(d.is_deleted && !d.is_new);
    assert_eq!(d.lines.len(), 2);
    assert!(d.lines.iter().all(|l| l.line_type == DiffLineType::Removed));
}

#[test]
fn invalid_utf8_base_counts_as_empty_text() {
    let d = content_file_diff("f.txt".into(), "z".into(), Some(vec![0xff, 0xfe]), None);
    assert_eq!(d.lines.len(), 1);
    assert_eq!(d.lines[0].line_type, DiffLineType::Added);
    assert_eq!(d.lines[0].content, "z");
}

#[test]
fn image_buffer_is_encoded() {
    let d = content_file_diff("i.png".into(), "hello".into(), Some(vec![1, 2]), Some("AQI=".into()));
    assert!(d.is_image && d.is_binary && d.lines.is_empty());
    assert_eq!(d.old_blob_base64.as_deref(), Some("AQI="));
    assert_eq!(d.new_blob_base64.as_deref(), Some("aGVsbG8="));
    let d = content_file_diff("i.png".into(), String::new(), None, Some("ignored".into()));
    assert_eq!(d.old_blob_base64, None);
    assert_eq!(d.new_blob_base64, None);
}

#[test]
fn buffer_lines_split_as_str_lines_does() {
    let d = content_file_diff("n.txt".into(), "\n\r\nx\ry\r".into(), None, None);
    let got: Vec<String> = d.lines.iter().map(|l| l.content.clone()).collect();
    assert_eq!(got, vec!["".to_string(), "".to_string(), "x\ry\r".to_string()]);
}

#[test]
fn commit_hash_is_parsed_only_from_hex() {
    let full = "0123456789abcdef0123456789ABCDEF01234567";
    let bytes = parse_commit_hash(full).unwrap();
    assert_eq!(
        bytes,
        vec![
            0x01, 0x23, 0x45, 0x67, 0x89, 0xab, 0xcd, 0xef, 0x01, 0x23, 0x45, 0x67, 0x89, 0xab,
            0xcd, 0xef, 0x01, 0x23, 0x45, 0x67
        ]
    );
    let mut short = vec![0u8; 20];
    short[0] = 0xab;
    short[1] = 0xc0;
    assert_eq!(parse_commit_hash("abc").unwrap(), short);
    assert_eq!(parse_commit_hash("0").unwrap(), vec![0u8; 20]);
    assert!(parse_commit_hash("").is_err());
    assert!(parse_commit_hash("xyz").is_err());
    assert!(parse_commit_hash(&"a".repeat(41)).is_err());
    assert!(parse_commit_hash("é").is_err());
}

#[test]
fn text_files_carry_no_image_contents() {
    let d = worktree_file_diff(
        "notes.txt".into(),
        delta(DeltaStatus::Modified, Some("notes.txt"), Some("notes.txt")),
        Some("AAA=".into()),
        Some("AQI=".into()),
        vec![],
    );
    assert!(!d.is_image && !d.is_binary);
    assert_eq!(d.old_blob_base64, None);
    assert_eq!(d.new_blob_base64, None);
    let d = commit_file_diff(
        delta(DeltaStatus::Modified, Some("a.rs"), Some("a.rs")),
        Some("AAA=".into()),
        Some("AQI=".into()),
        vec![],
    );
    assert!(!d.is_image);
    assert_eq!(d.old_blob_base64, None);
    assert_eq!(d.new_blob_base64, None);
    let d = content_file_diff("t.txt".into(), "x".into(), Some(b"y".to_vec()), Some("AAA=".into()));
    assert!(!d.is_image);
    assert_eq!(d.old_blob_base64, None);
    assert_eq!(d.new_blob_base64, None);
}

#[test]
fn image_sides_follow_the_change() {
    let d = worktree_file_diff(
        "new.gif".into(),
        delta(DeltaStatus::Added, None, Some("new.gif")),
        Some("AAA=".into()),
        Some("AQI=".into()),
        vec![],
    );
    assert!(d.is_image && d.is_new);
    assert_eq!(d.old_blob_base64, None);
    assert_eq!(d.new_blob_base64.as_deref(), Some("AQI="));
    let d = commit_file_diff(
        delta(DeltaStatus::Deleted, Some("old.JPEG"), None),
        Some("AAA=".into()),
        Some("AQI=".into()),
        vec![],
    );
    assert_eq!(d.file_path, "old.JPEG");
    assert!(d.is_image && d.is_deleted);
    assert_eq!(d.old_blob_base64.as_deref(), Some("AAA="));
    assert_eq!(d.new_blob_base64, None);
}

#[test]
fn image_files_are_known_by_extension() {
    assert!(is_image_file("a/b.PNG"));
    assert!(is_image_file("y.jpeg"));
    assert!(is_image_file("icons/app.ico"));
    assert!(is_image_file("x.tar.svg"));
    assert!(!is_image_file(".png"));
    assert!(!is_image_file("dir.png/x"));
    assert!(!is_image_file("x.txt"));
    assert!(!is_image_file("png"));
    assert!(!is_image_file("pic."));
}

#[test]
fn delta_is_located_or_reported_missing() {
    let file = "f.txt".to_string();
    let some = vec![delta(DeltaStatus::Modified, Some("f.txt"), Some("f.txt"))];
    let none: Vec<DeltaInfo> = vec![];
    let all = vec![
        delta(DeltaStatus::Modified, Some("g.txt"), Some("g.txt")),
        delta(DeltaStatus::Renamed, Some("f.txt"), Some("h.txt")),
    ];
    assert_eq!(locate_file_delta(&file, &some, None), Ok(DeltaPick::Pathspec(0)));
    assert_eq!(locate_file_delta(&file, &some, Some(&all)), Ok(DeltaPick::Pathspec(0)));
    assert_eq!(locate_file_delta(&file, &none, Some(&all)), Ok(DeltaPick::Broader(1)));
    let msg = "No changes found for file: f.txt (searched f.txt paths)".to_string();
    assert_eq!(locate_file_delta(&file, &none, Some(&none)), Err(msg.clone()));
    assert_eq!(locate_file_delta(&file, &none, None), Err(msg.clone()));
    assert_eq!(no_changes_error(&file), msg);
}

#[test]
fn base_index_or_head() {
    assert_eq!(diff_base("index"), DiffBase::Index);
    assert_eq!(diff_base("head"), DiffBase::Head);
    assert_eq!(diff_base("Index"), DiffBase::Head);
}
