//! The changes of one file: which delta describes it, what kind of change
//! it is, where the images of an image file are read from, and the diff
//! that is handed to the editor.

use vstd::prelude::*;
use crate::diff_lines::{
    DiffLineType, DiffLineView, GitDiffLine, create_diff_lines, diff_view, line_diff,
};
use crate::lcs::lines_view;
use crate::patch::git_error_text;
use crate::text::{
    base64_standard, chars_of, copy_range, encode_base64, eq_ignore_ascii_case_chars,
    eq_ignoring_ascii_case, spec_lines, str_eq, str_from_utf8, str_lines,
};
use vstd::string::StringExecFns;

verus! {

/// The kind of change of a delta, as git reports it.
#[derive(Debug, Clone, Copy, PartialEq, Eq, Structural)]
pub enum DeltaStatus {
    Unmodified,
    Added,
    Deleted,
    Modified,
    Renamed,
    Copied,
    Ignored,
    Untracked,
    Typechange,
    Unreadable,
    Conflicted,
}

/// One delta of a diff: its kind and the paths of its old and new file.
#[derive(Debug, Clone)]
pub struct DeltaInfo {
    pub status: DeltaStatus,
    pub old_path: Option<String>,
    pub new_path: Option<String>,
}

/// The changes of one file, as the editor shows them.
#[derive(Debug, Clone)]
pub struct GitDiff {
    pub file_path: String,
    pub old_path: Option<String>,
    pub new_path: Option<String>,
    pub is_new: bool,
    pub is_deleted: bool,
    pub is_renamed: bool,
    pub is_binary: bool,
    pub is_image: bool,
    pub old_blob_base64: Option<String>,
    pub new_blob_base64: Option<String>,
    pub lines: Vec<GitDiffLine>,
}

/// The characters of an optional path.
pub open spec fn path_view(p: Option<String>) -> Option<Seq<char>> {
    match p {
        Some(s) => Some(s@),
        None => None,
    }
}

/// `p`, or `fallback` when there is no path.
pub open spec fn path_or(p: Option<Seq<char>>, fallback: Seq<char>) -> Seq<char> {
    match p {
        Some(s) => s,
        None => fallback,
    }
}

/// A delta describes `file` when its old or its new path is `file`.
pub open spec fn delta_touches(d: DeltaInfo, file: Seq<char>) -> bool {
    path_view(d.old_path) == Some(file) || path_view(d.new_path) == Some(file)
}

/// The first delta that describes `file`, if one does.
pub fn find_delta_for_file(deltas: &Vec<DeltaInfo>, file_path: &String) -> (res: Option<usize>)
    ensures
        match res {
            Some(i) => i < deltas@.len() && delta_touches(deltas@[i as int], file_path@) && forall|k: int|
                0 <= k < i ==> !delta_touches(#[trigger] deltas@[k], file_path@),
            None => forall|k: int|
                0 <= k < deltas@.len() ==> !delta_touches(#[trigger] deltas@[k], file_path@),
        },
{
    let mut i: usize = 0;
    while i < deltas.len()
        invariant
            i <= deltas@.len(),
            forall|k: int| 0 <= k < i ==> !delta_touches(#[trigger] deltas@[k], file_path@),
        decreases deltas@.len() - i,
    {
        let d = &deltas[i];
        let old_hit = match &d.old_path {
            Some(p) => p.eq(file_path),
            None => false,
        };
        let new_hit = match &d.new_path {
            Some(p) => p.eq(file_path),
            None => false,
        };
        if old_hit || new_hit {
            return Some(i);
        }
        i += 1;
    }
    None
}

/// Whether a change adds, deletes or renames its file, in that order.
pub fn status_flags(status: DeltaStatus) -> (flags: (bool, bool, bool))
    ensures
        flags == (status == DeltaStatus::Added, status == DeltaStatus::Deleted, status
            == DeltaStatus::Renamed),
{
    (status == DeltaStatus::Added, status == DeltaStatus::Deleted, status == DeltaStatus::Renamed)
}

/// Where the content of one side of an image comes from.
#[derive(Debug, Clone)]
pub enum BlobSource {
    /// The blob of the delta's old file, described by `path`.
    OldBlob { path: String },
    /// The blob of the delta's new file, described by `path`.
    NewBlob { path: String },
    /// The file at `path` in the working directory.
    WorkingFile { path: String },
    /// The blob that the parent commit's tree holds at `lookup`, if there is
    /// a path to look up, described by `path`.
    ParentTreeEntry { lookup: Option<String>, path: String },
}

/// The mathematical value of a blob source.
pub enum BlobSourceView {
    OldBlob { path: Seq<char> },
    NewBlob { path: Seq<char> },
    WorkingFile { path: Seq<char> },
    ParentTreeEntry { lookup: Option<Seq<char>>, path: Seq<char> },
}

impl View for BlobSource {
    type V = BlobSourceView;

    open spec fn view(&self) -> BlobSourceView {
        match self {
            BlobSource::OldBlob { path } => BlobSourceView::OldBlob { path: path@ },
            BlobSource::NewBlob { path } => BlobSourceView::NewBlob { path: path@ },
            BlobSource::WorkingFile { path } => BlobSourceView::WorkingFile { path: path@ },
            BlobSource::ParentTreeEntry { lookup, path } => BlobSourceView::ParentTreeEntry {
                lookup: path_view(*lookup),
                path: path@,
            },
        }
    }
}

/// Where the old and the new content of an image come from; `None` for a
/// side that is not shown.
#[derive(Debug, Clone)]
pub struct ImagePlan {
    pub old: Option<BlobSource>,
    pub new: Option<BlobSource>,
}

pub open spec fn source_view(s: Option<BlobSource>) -> Option<BlobSourceView> {
    match s {
        Some(b) => Some(b@),
        None => None,
    }
}

/// The new side of an image in a diff of the index (`staged`) or of the
/// working directory: the delta's new blob, or the file on disk.
pub open spec fn worktree_new_side(staged: bool, path: Seq<char>) -> Option<BlobSourceView> {
    if staged {
        Some(BlobSourceView::NewBlob { path })
    } else {
        Some(BlobSourceView::WorkingFile { path })
    }
}

/// Where the images of a changed image file are read from, in a diff of
/// the staged changes (`staged`) or of the unstaged ones: an added file
/// has only a new side; a deleted file only an old side, from its old path;
/// a renamed file is read from its old path and its new path; any other
/// change from `file`. The new side is the new blob when staged, the file
/// in the working directory otherwise.
pub open spec fn worktree_image_plan(
    status: DeltaStatus,
    staged: bool,
    old_path: Option<Seq<char>>,
    new_path: Option<Seq<char>>,
    file: Seq<char>,
) -> (Option<BlobSourceView>, Option<BlobSourceView>) {
    if status == DeltaStatus::Added {
        (None, worktree_new_side(staged, file))
    } else if status == DeltaStatus::Deleted {
        (Some(BlobSourceView::OldBlob { path: path_or(old_path, file) }), None)
    } else if status == DeltaStatus::Renamed {
        (
            Some(BlobSourceView::OldBlob { path: path_or(old_path, file) }),
            worktree_new_side(staged, path_or(new_path, file)),
        )
    } else {
        (Some(BlobSourceView::OldBlob { path: file }), worktree_new_side(staged, file))
    }
}

fn path_or_clone(p: &Option<String>, fallback: &String) -> (res: String)
    ensures
        res@ == path_or(path_view(*p), fallback@),
{
    match p {
        Some(s) => s.clone(),
        None => fallback.clone(),
    }
}

fn worktree_new_source(staged: bool, path: String) -> (res: Option<BlobSource>)
    ensures
        source_view(res) == worktree_new_side(staged, path@),
{
    if staged {
        Some(BlobSource::NewBlob { path })
    } else {
        Some(BlobSource::WorkingFile { path })
    }
}

/// Where the images of a changed image file are read from in a diff of
/// the index or of the working directory: see `worktree_image_plan`.
pub fn plan_worktree_image(
    status: DeltaStatus,
    staged: bool,
    old_path: &Option<String>,
    new_path: &Option<String>,
    file_path: &String,
) -> (plan: ImagePlan)
    ensures
        (source_view(plan.old), source_view(plan.new)) == worktree_image_plan(
            status,
            staged,
            path_view(*old_path),
            path_view(*new_path),
            file_path@,
        ),
{
    if status == DeltaStatus::Added {
        ImagePlan { old: None, new: worktree_new_source(staged, file_path.clone()) }
    } else if status == DeltaStatus::Deleted {
        ImagePlan { old: Some(BlobSource::OldBlob { path: path_or_clone(old_path, file_path) }), new: None }
    } else if status == DeltaStatus::Renamed {
        ImagePlan {
            old: Some(BlobSource::OldBlob { path: path_or_clone(old_path, file_path) }),
            new: worktree_new_source(staged, path_or_clone(new_path, file_path)),
        }
    } else {
        ImagePlan {
            old: Some(BlobSource::OldBlob { path: file_path.clone() }),
            new: worktree_new_source(staged, file_path.clone()),
        }
    }
}

/// The path whose changes are diffed again, on their own, for a text file
/// found among all changes: the old path of a deleted file, the new path of
/// any other, or `file` when the delta has no such path.
pub fn text_diff_target(
    status: DeltaStatus,
    old_path: &Option<String>,
    new_path: &Option<String>,
    file_path: &String,
) -> (res: String)
    ensures
        res@ == if status == DeltaStatus::Deleted {
            path_or(path_view(*old_path), file_path@)
        } else {
            path_or(path_view(*new_path), file_path@)
        },
{
    if status == DeltaStatus::Deleted {
        path_or_clone(old_path, file_path)
    } else {
        path_or_clone(new_path, file_path)
    }
}

/// The changes of a file as found in a diff of the index or of the working
/// directory: the kind of change comes from the delta; the file is an
/// image when its path names one (`is_image_path`); an image is binary, has
/// no lines, and shows the given old contents unless it is new and the
/// given new contents unless it is deleted; a text file has `text_lines`
/// and no image contents.
pub fn worktree_file_diff(
    file_path: String,
    delta: DeltaInfo,
    old_blob_base64: Option<String>,
    new_blob_base64: Option<String>,
    text_lines: Vec<GitDiffLine>,
) -> (res: GitDiff)
    ensures
        res.file_path@ == file_path@,
        path_view(res.old_path) == path_view(delta.old_path),
        path_view(res.new_path) == path_view(delta.new_path),
        res.is_new == (delta.status == DeltaStatus::Added),
        res.is_deleted == (delta.status == DeltaStatus::Deleted),
        res.is_renamed == (delta.status == DeltaStatus::Renamed),
        res.is_image == is_image_path(file_path@),
        res.is_binary == res.is_image,
        res.old_blob_base64 == if res.is_image && !res.is_new { old_blob_base64 } else { None },
        res.new_blob_base64 == if res.is_image && !res.is_deleted { new_blob_base64 } else { None },
        res.lines@ == if res.is_image { Seq::<GitDiffLine>::empty() } else { text_lines@ },
{
    let is_image = is_image_file(file_path.as_str());
    let (is_new, is_deleted, is_renamed) = status_flags(delta.status);
    let lines = if is_image {
        Vec::new()
    } else {
        text_lines
    };
    let old_blob_base64 = if is_image && !is_new {
        old_blob_base64
    } else {
        None
    };
    let new_blob_base64 = if is_image && !is_deleted {
        new_blob_base64
    } else {
        None
    };
    GitDiff {
        file_path,
        old_path: delta.old_path,
        new_path: delta.new_path,
        is_new,
        is_deleted,
        is_renamed,
        is_binary: is_image,
        is_image,
        old_blob_base64,
        new_blob_base64,
        lines,
    }
}

/// The path a change of a commit is shown under: the old path of a deleted
/// file, otherwise the new path, or else the old path, or else nothing.
pub open spec fn commit_change_path(
    status: DeltaStatus,
    old_path: Option<Seq<char>>,
    new_path: Option<Seq<char>>,
) -> Seq<char> {
    if status == DeltaStatus::Deleted {
        path_or(old_path, seq![])
    } else {
        match new_path {
            Some(p) => p,
            None => path_or(old_path, seq![]),
        }
    }
}

/// The path a change of a commit is shown under: see `commit_change_path`.
pub fn commit_delta_path(status: DeltaStatus, old_path: &Option<String>, new_path: &Option<String>) -> (res: String)
    ensures
        res@ == commit_change_path(status, path_view(*old_path), path_view(*new_path)),
{
    let empty = String::new();
    if status == DeltaStatus::Deleted {
        path_or_clone(old_path, &empty)
    } else {
        match new_path {
            Some(p) => p.clone(),
            None => path_or_clone(old_path, &empty),
        }
    }
}

/// Where the images of a changed image file of a commit are read from:
/// the old side is absent for an added file and otherwise read, under its
/// old path, from the parent commit's tree when the commit has a parent
/// and from the delta's old blob when it has none; the new side is absent
/// for a deleted file and otherwise the delta's new blob under its new path.
pub open spec fn commit_image_plan(
    status: DeltaStatus,
    has_parent: bool,
    old_path: Option<Seq<char>>,
    new_path: Option<Seq<char>>,
) -> (Option<BlobSourceView>, Option<BlobSourceView>) {
    let old = if status == DeltaStatus::Added {
        None
    } else if has_parent {
        Some(BlobSourceView::ParentTreeEntry { lookup: old_path, path: path_or(old_path, seq![]) })
    } else {
        Some(BlobSourceView::OldBlob { path: path_or(old_path, seq![]) })
    };
    let new = if status == DeltaStatus::Deleted {
        None
    } else {
        Some(BlobSourceView::NewBlob { path: path_or(new_path, seq![]) })
    };
    (old, new)
}

/// Where the images of a changed image file of a commit are read from: see
/// `commit_image_plan`.
pub fn plan_commit_image(
    status: DeltaStatus,
    has_parent: bool,
    old_path: &Option<String>,
    new_path: &Option<String>,
) -> (plan: ImagePlan)
    ensures
        (source_view(plan.old), source_view(plan.new)) == commit_image_plan(
            status,
            has_parent,
            path_view(*old_path),
            path_view(*new_path),
        ),
{
    let empty = String::new();
    let old = if status == DeltaStatus::Added {
        None
    } else if has_parent {
        Some(BlobSource::ParentTreeEntry { lookup: old_path.clone(), path: path_or_clone(old_path, &empty) })
    } else {
        Some(BlobSource::OldBlob { path: path_or_clone(old_path, &empty) })
    };
    let new = if status == DeltaStatus::Deleted {
        None
    } else {
        Some(BlobSource::NewBlob { path: path_or_clone(new_path, &empty) })
    };
    ImagePlan { old, new }
}

/// The changes of one file of a commit: shown under `commit_change_path`,
/// and otherwise as `worktree_file_diff` makes them, with the image
/// decided by the path it is shown under.
pub fn commit_file_diff(
    delta: DeltaInfo,
    old_blob_base64: Option<String>,
    new_blob_base64: Option<String>,
    text_lines: Vec<GitDiffLine>,
) -> (res: GitDiff)
    ensures
        res.file_path@ == commit_change_path(delta.status, path_view(delta.old_path), path_view(delta.new_path)),
        path_view(res.old_path) == path_view(delta.old_path),
        path_view(res.new_path) == path_view(delta.new_path),
        res.is_new == (delta.status == DeltaStatus::Added),
        res.is_deleted == (delta.status == DeltaStatus::Deleted),
        res.is_renamed == (delta.status == DeltaStatus::Renamed),
        res.is_image == is_image_path(res.file_path@),
        res.is_binary == res.is_image,
        res.old_blob_base64 == if res.is_image && !res.is_new { old_blob_base64 } else { None },
        res.new_blob_base64 == if res.is_image && !res.is_deleted { new_blob_base64 } else { None },
        res.lines@ == if res.is_image { Seq::<GitDiffLine>::empty() } else { text_lines@ },
{
    let file_path = commit_delta_path(delta.status, &delta.old_path, &delta.new_path);
    worktree_file_diff(file_path, delta, old_blob_base64, new_blob_base64, text_lines)
}

/// The text of a base blob: the characters its bytes encode when they are
/// valid UTF-8, and no text otherwise.
pub open spec fn blob_text(bytes: Seq<u8>) -> Seq<char> {
    if vstd::utf8::valid_utf8(bytes) {
        vstd::utf8::decode_utf8(bytes)
    } else {
        seq![]
    }
}

/// The lines of an editor buffer compared with the version of the file in
/// the index or in HEAD (`base`, absent when the file is new there): the
/// line diff of the two texts, or, for a new file, every line of the
/// buffer as added.
pub open spec fn buffer_diff_lines(base: Option<Seq<u8>>, content: Seq<char>) -> Seq<DiffLineView> {
    match base {
        Some(b) => line_diff(spec_lines(blob_text(b)), spec_lines(content)),
        None => if content.len() == 0 {
            seq![]
        } else {
            crate::diff_lines::added_run(spec_lines(content), 0, spec_lines(content).len() as int)
        },
    }
}

pub open spec fn blob_view(b: Option<Vec<u8>>) -> Option<Seq<u8>> {
    match b {
        Some(v) => Some(v@),
        None => None,
    }
}

/// The changes of an editor buffer `content` of `file_path` against the
/// file's version in the index or in HEAD, whose bytes are `base_blob`
/// (absent when the file is not there). The file is new when it has no
/// base, deleted when the buffer is empty and it has one, never renamed.
/// The file is an image when its path names one (`is_image_path`).
/// An image shows `old_blob_base64` as its old side when it has a base, and
/// the buffer's UTF-8 bytes in base64 as its new side when the buffer is
/// not empty; it has no lines. A text file has `buffer_diff_lines`.
pub fn content_file_diff(
    file_path: String,
    content: String,
    base_blob: Option<Vec<u8>>,
    old_blob_base64: Option<String>,
) -> (res: GitDiff)
    requires
        spec_lines(content@).len() < u32::MAX,
        base_blob matches Some(b) ==> spec_lines(blob_text(b@)).len() < u32::MAX,
    ensures
        res.file_path@ == file_path@,
        path_view(res.old_path) == Some(file_path@),
        path_view(res.new_path) == Some(file_path@),
        res.is_new == (base_blob is None),
        res.is_deleted == (content@.len() == 0 && base_blob is Some),
        !res.is_renamed,
        res.is_image == is_image_path(file_path@),
        res.is_binary == res.is_image,
        res.old_blob_base64 == if res.is_image && base_blob is Some { old_blob_base64 } else { None },
        path_view(res.new_blob_base64) == if res.is_image && content@.len() > 0 {
            Some(base64_standard(vstd::utf8::encode_utf8(content@)))
        } else {
            None
        },
        diff_view(res.lines@) == if res.is_image {
            Seq::<DiffLineView>::empty()
        } else {
            buffer_diff_lines(blob_view(base_blob), content@)
        },
{
    let is_image = is_image_file(file_path.as_str());
    let is_new = base_blob.is_none();
    let is_deleted = content.as_str().is_empty() && !is_new;
    let is_renamed = false;

    let mut old_b64: Option<String> = None;
    let mut new_b64: Option<String> = None;
    let mut lines: Vec<GitDiffLine> = Vec::new();

    if is_image {
        if base_blob.is_some() {
            old_b64 = old_blob_base64;
        }
        if !content.as_str().is_empty() {
            new_b64 = Some(encode_base64(content.as_str().as_bytes()));
        }
        proof {
            assert(diff_view(lines@) =~= Seq::<DiffLineView>::empty());
        }
    } else {
        match &base_blob {
            Some(bytes) => {
                let old_text: &str = match str_from_utf8(bytes.as_slice()) {
                    Some(t) => t,
                    None => "",
                };
                proof {
                    if !vstd::utf8::valid_utf8(bytes@) {
                        reveal_strlit("");
                        assert(old_text@ == Seq::<char>::empty());
                    }
                }
                let old_lines = str_lines(old_text);
                let new_lines = str_lines(content.as_str());
                assert(lines_view(old_lines@) == spec_lines(old_text@));
                lines = create_diff_lines(old_lines.as_slice(), new_lines.as_slice());
            },
            None => {
                if !content.as_str().is_empty() {
                    let new_lines = str_lines(content.as_str());
                    let ghost n = lines_view(new_lines@);
                    let mut line_num: usize = 0;
                    while line_num < new_lines.len()
                        invariant
                            n == lines_view(new_lines@),
                            n == spec_lines(content@),
                            n.len() < u32::MAX,
                            line_num <= n.len(),
                            diff_view(lines@) == crate::diff_lines::added_run(n, 0, line_num as int),
                        decreases n.len() - line_num,
                    {
                        let line = GitDiffLine {
                            line_type: DiffLineType::Added,
                            content: new_lines[line_num].to_owned(),
                            old_line_number: None,
                            new_line_number: Some((line_num + 1) as u32),
                        };
                        proof {
                            assert(diff_view(lines@.push(line)) =~= diff_view(lines@).push(line@));
                            assert(crate::diff_lines::added_run(n, 0, line_num + 1) =~= crate::diff_lines::added_run(
                                n,
                                0,
                                line_num as int,
                            ).push(line@));
                        }
                        lines.push(line);
                        line_num += 1;
                    }
                } else {
                    proof {
                        assert(diff_view(lines@) =~= Seq::<DiffLineView>::empty());
                    }
                }
            },
        }
    }

    GitDiff {
        file_path: file_path.clone(),
        old_path: Some(file_path.clone()),
        new_path: Some(file_path.clone()),
        is_new,
        is_deleted,
        is_renamed,
        is_binary: is_image,
        is_image,
        old_blob_base64: old_b64,
        new_blob_base64: new_b64,
        lines,
    }
}

/// An editor buffer that holds exactly the text of its base shows no
/// change: every line of the diff is a context line, one per line of the text.
pub proof fn law_unchanged_buffer_shows_no_change(base: Seq<u8>)
    requires
        vstd::utf8::valid_utf8(base),
    ensures
        buffer_diff_lines(Some(base), blob_text(base)).len() == spec_lines(blob_text(base)).len(),
        forall|k: int|
            0 <= k < buffer_diff_lines(Some(base), blob_text(base)).len() ==> (#[trigger] buffer_diff_lines(
                Some(base),
                blob_text(base),
            )[k]).kind == DiffLineType::Context,
{
    crate::diff_lines::law_identical_texts_diff_as_context(spec_lines(blob_text(base)));
}

/// Which delta describes a file: the first of the diff restricted to the
/// file, or the one found among all changes.
#[derive(Debug, Clone, Copy, PartialEq, Eq, Structural)]
pub enum DeltaPick {
    Pathspec(usize),
    Broader(usize),
}

/// The error given when no change of a file is found.
pub open spec fn no_changes_message(file: Seq<char>) -> Seq<char> {
    "No changes found for file: "@ + file + " (searched "@ + file + " paths)"@
}

/// The error given when no change of `file_path` is found.
pub fn no_changes_error(file_path: &String) -> (res: String)
    ensures
        res@ == no_changes_message(file_path@),
{
    let mut msg = "No changes found for file: ".to_owned();
    msg.append(file_path.as_str());
    msg.append(" (searched ");
    msg.append(file_path.as_str());
    msg.append(" paths)");
    msg
}

/// Which delta describes `file_path`: the first delta of the diff
/// restricted to the file when it has one; otherwise the first delta among
/// all changes (`broader_deltas`, absent when that diff could not be made)
/// that touches the file; otherwise the error that no change was found.
pub fn locate_file_delta(
    file_path: &String,
    pathspec_deltas: &Vec<DeltaInfo>,
    broader_deltas: Option<&Vec<DeltaInfo>>,
) -> (res: Result<DeltaPick, String>)
    ensures
        pathspec_deltas@.len() > 0 ==> res == Ok::<DeltaPick, String>(DeltaPick::Pathspec(0)),
        pathspec_deltas@.len() == 0 ==> match broader_deltas {
            Some(all) => match res {
                Ok(DeltaPick::Broader(i)) => i < all@.len() && delta_touches(all@[i as int], file_path@)
                    && forall|k: int| 0 <= k < i ==> !delta_touches(#[trigger] all@[k], file_path@),
                Ok(DeltaPick::Pathspec(_)) => false,
                Err(msg) => msg@ == no_changes_message(file_path@) && forall|k: int|
                    0 <= k < all@.len() ==> !delta_touches(#[trigger] all@[k], file_path@),
            },
            None => res matches Err(msg) && msg@ == no_changes_message(file_path@),
        },
{
    if pathspec_deltas.len() > 0 {
        return Ok(DeltaPick::Pathspec(0));
    }
    match broader_deltas {
        Some(all) => match find_delta_for_file(all, file_path) {
            Some(i) => Ok(DeltaPick::Broader(i)),
            None => Err(no_changes_error(file_path)),
        },
        None => Err(no_changes_error(file_path)),
    }
}

/// What a buffer is compared with.
#[derive(Debug, Clone, Copy, PartialEq, Eq, Structural)]
pub enum DiffBase {
    Index,
    Head,
}

/// The buffer is compared with the index when `base` is `index`, and with
/// HEAD for any other value.
pub fn diff_base(base: &str) -> (res: DiffBase)
    ensures
        res == (if base@ == "index"@ {
            DiffBase::Index
        } else {
            DiffBase::Head
        }),
{
    if str_eq(base, "index") {
        DiffBase::Index
    } else {
        DiffBase::Head
    }
}

/// `c` is a hexadecimal digit.
pub open spec fn is_hex_digit(c: char) -> bool {
    ('0' <= c && c <= '9') || ('a' <= c && c <= 'f') || ('A' <= c && c <= 'F')
}

/// The text is an object id git accepts: one to forty hexadecimal digits.
pub open spec fn oid_hex_accepted(s: Seq<char>) -> bool {
    0 < s.len() <= 40 && forall|i: int| 0 <= i < s.len() ==> is_hex_digit(#[trigger] s[i])
}

/// The value of a hexadecimal digit.
pub open spec fn hex_value(c: char) -> int {
    if '0' <= c && c <= '9' {
        c as int - 48
    } else if 'a' <= c && c <= 'f' {
        c as int - 87
    } else if 'A' <= c && c <= 'F' {
        c as int - 55
    } else {
        0
    }
}

/// The digit at `p` of a hexadecimal text, zero past its end.
pub open spec fn hex_digit_at(s: Seq<char>, p: int) -> int {
    if 0 <= p < s.len() {
        hex_value(s[p])
    } else {
        0
    }
}

/// The twenty bytes of the object id that a text of hex digits spells:
/// byte `k` holds digits `2k` and `2k + 1`, high digit first, and digits
/// past the end of the text are zero.
pub open spec fn oid_bytes_of_hex(s: Seq<char>) -> Seq<u8> {
    Seq::new(20, |k: int| (hex_digit_at(s, 2 * k) * 16 + hex_digit_at(s, 2 * k + 1)) as u8)
}

/// Parses a hexadecimal object id into its raw bytes.
///
/// Calls `git2::Oid::from_str` and copies out `Oid::as_bytes`. The contract
/// claims what its documentation and libgit2's `git_oid__fromstrn` show:
/// it fails exactly when the text is empty, longer than forty hex digits,
/// or holds a character that is not a hex digit; otherwise the id's twenty
/// bytes are the digits read in pairs, high digit first, with the digits
/// past the end of the text taken as zero.
#[verifier::external_body]
fn oid_from_hex(hash: &str) -> (res: Result<Vec<u8>, git2::Error>)
    ensures
        res is Ok <==> oid_hex_accepted(hash@),
        res matches Ok(bytes) ==> bytes@ == oid_bytes_of_hex(hash@),
{
    git2::Oid::from_str(hash).map(|oid| oid.as_bytes().to_vec())
}

/// The raw bytes of the object id that `commit_hash` spells, or git2's
/// message of why it spells none; it succeeds exactly on one to forty
/// hexadecimal digits.
pub fn parse_commit_hash(commit_hash: &str) -> (res: Result<Vec<u8>, String>)
    ensures
        res is Ok <==> oid_hex_accepted(commit_hash@),
        res matches Ok(bytes) ==> bytes@ == oid_bytes_of_hex(commit_hash@),
{
    match oid_from_hex(commit_hash) {
        Ok(bytes) => Ok(bytes),
        Err(e) => Err(git_error_text(&e)),
    }
}

/// Index of the last `c` in `s`, or -1 when there is none.
pub open spec fn last_index_of(s: Seq<char>, c: char) -> int
    decreases s.len(),
{
    if s.len() == 0 {
        -1
    } else if s.last() == c {
        s.len() - 1
    } else {
        last_index_of(s.drop_last(), c)
    }
}

proof fn lemma_last_index_of(s: Seq<char>, c: char)
    ensures
        -1 <= last_index_of(s, c) < s.len(),
        last_index_of(s, c) >= 0 ==> s[last_index_of(s, c)] == c,
        forall|i: int| last_index_of(s, c) < i < s.len() ==> s[i] != c,
    decreases s.len(),
{
    if s.len() > 0 && s.last() != c {
        lemma_last_index_of(s.drop_last(), c);
        assert forall|i: int| last_index_of(s, c) < i < s.len() implies s[i] != c by {
            if i < s.len() - 1 {
                assert(s[i] == s.drop_last()[i]);
            }
        }
    }
}

/// The extension of a path: the text after the last `'.'` of its last
/// component, when that dot is not the component's first character.
pub open spec fn path_extension(path: Seq<char>) -> Option<Seq<char>> {
    let name = path.skip(last_index_of(path, '/') + 1);
    let dot = last_index_of(name, '.');
    if dot > 0 {
        Some(name.skip(dot + 1))
    } else {
        None
    }
}

/// A path names an image when its extension is, up to ASCII case, one of
/// png, jpg, jpeg, gif, bmp, webp, svg, ico, tif, tiff or avif.
pub open spec fn is_image_path(path: Seq<char>) -> bool {
    match path_extension(path) {
        Some(e) => eq_ignoring_ascii_case(e, "png"@) || eq_ignoring_ascii_case(e, "jpg"@)
            || eq_ignoring_ascii_case(e, "jpeg"@) || eq_ignoring_ascii_case(e, "gif"@)
            || eq_ignoring_ascii_case(e, "bmp"@) || eq_ignoring_ascii_case(e, "webp"@)
            || eq_ignoring_ascii_case(e, "svg"@) || eq_ignoring_ascii_case(e, "ico"@)
            || eq_ignoring_ascii_case(e, "tif"@) || eq_ignoring_ascii_case(e, "tiff"@)
            || eq_ignoring_ascii_case(e, "avif"@),
        None => false,
    }
}

fn last_index_in(s: &Vec<char>, c: char) -> (res: Option<usize>)
    ensures
        match res {
            Some(i) => i as int == last_index_of(s@, c),
            None => last_index_of(s@, c) == -1,
        },
{
    let mut n: usize = s.len();
    assert(s@.take(n as int) == s@);
    while n > 0
        invariant
            n <= s@.len(),
            last_index_of(s@, c) == last_index_of(s@.take(n as int), c),
        decreases n,
    {
        assert(s@.take(n as int).drop_last() == s@.take(n - 1));
        if s[n - 1] == c {
            return Some(n - 1);
        }
        n -= 1;
    }
    None
}

fn extension_is(e: &Vec<char>, known: &str) -> (res: bool)
    ensures
        res == eq_ignoring_ascii_case(e@, known@),
{
    eq_ignore_ascii_case_chars(e, &chars_of(known))
}

/// Whether `path` names an image: see `is_image_path`.
pub fn is_image_file(path: &str) -> (res: bool)
    ensures
        res == is_image_path(path@),
{
    let chars = chars_of(path);
    let len = chars.len();
    proof {
        lemma_last_index_of(chars@, '/');
    }
    let start = match last_index_in(&chars, '/') {
        Some(i) => i + 1,
        None => 0,
    };
    let name = copy_range(&chars, start, len);
    assert(name@ == path@.skip(last_index_of(path@, '/') + 1));
    proof {
        lemma_last_index_of(name@, '.');
    }
    let dot = match last_index_in(&name, '.') {
        Some(d) => d,
        None => return false,
    };
    let name_len = name.len();
    if dot == 0 {
        return false;
    }
    let e = copy_range(&name, dot + 1, name_len);
    assert(e@ == name@.skip(dot + 1));
    extension_is(&e, "png") || extension_is(&e, "jpg") || extension_is(&e, "jpeg")
        || extension_is(&e, "gif") || extension_is(&e, "bmp") || extension_is(&e, "webp")
        || extension_is(&e, "svg") || extension_is(&e, "ico") || extension_is(&e, "tif")
        || extension_is(&e, "tiff") || extension_is(&e, "avif")
}

/// An unsaved buffer of a file that has no version to compare with is all
/// new: its diff is every line of the buffer, in order, as an added line
/// that carries no old line number and, as its new number, its place in
/// the buffer counted from one.
pub proof fn law_new_file_buffer_is_all_added(content: Seq<char>)
    requires
        spec_lines(content).len() < u32::MAX,
    ensures
        buffer_diff_lines(None, content).len() == spec_lines(content).len(),
        forall|k: int|
            0 <= k < spec_lines(content).len() ==> {
                let l = #[trigger] buffer_diff_lines(None, content)[k];
                &&& l.kind == DiffLineType::Added
                &&& l.content == spec_lines(content)[k]
                &&& l.old_no is None
                &&& l.new_no matches Some(n) && n == k + 1
            },
        forall|k: int|
            0 <= k < spec_lines(content).len() ==> crate::diff_lines::line_numbered_in(
                seq![],
                spec_lines(content),
                #[trigger] buffer_diff_lines(None, content)[k],
            ),
{
    if content.len() == 0 {
        assert(spec_lines(content).len() == 0);
    }
}

/// In a diff of the index or of the working directory, an image shows an
/// old side unless it was added and a new side unless it was deleted; the
/// new side is the new blob in a diff of the staged changes and the file
/// in the working directory in a diff of the unstaged ones.
pub proof fn law_worktree_image_sides(
    status: DeltaStatus,
    staged: bool,
    old_path: Option<Seq<char>>,
    new_path: Option<Seq<char>>,
    file: Seq<char>,
)
    ensures
        ({
            let (old, new) = worktree_image_plan(status, staged, old_path, new_path, file);
            &&& (old is None <==> status == DeltaStatus::Added)
            &&& (old matches Some(o) ==> o is OldBlob)
            &&& (new is None <==> status == DeltaStatus::Deleted)
            &&& (new matches Some(n) ==> (staged ==> n is NewBlob) && (!staged ==> n is WorkingFile))
        }),
{
}

/// In a diff of a commit, an image shows an old side exactly when it was
/// not added, read under its old path from the parent's tree when the
/// commit has a parent and from the old blob when it has none, and a new
/// side exactly when it was not deleted, read from the new blob.
pub proof fn law_commit_image_sides(
    status: DeltaStatus,
    has_parent: bool,
    old_path: Option<Seq<char>>,
    new_path: Option<Seq<char>>,
)
    ensures
        ({
            let (old, new) = commit_image_plan(status, has_parent, old_path, new_path);
            &&& (old is None <==> status == DeltaStatus::Added)
            &&& (old matches Some(o) ==> (has_parent ==> (o matches BlobSourceView::ParentTreeEntry { lookup, .. } && lookup == old_path))
                && (!has_parent ==> o is OldBlob))
            &&& (new is None <==> status == DeltaStatus::Deleted)
            &&& (new matches Some(n) ==> n is NewBlob)
        }),
{
}

} // verus!
