//! Diff lines of a patch that git2 prints.

use vstd::prelude::*;
use crate::diff_lines::{DiffLineType, DiffLineView, GitDiffLine, diff_view};
use crate::text::{lossy_utf8, strip_trailing_newlines, trim_trailing_newlines, utf8_lossy};

verus! {

#[verifier::external_type_specification]
#[verifier::external_body]
pub struct ExGitDiff<'repo>(git2::Diff<'repo>);

#[verifier::external_type_specification]
#[verifier::external_body]
pub struct ExGitError(git2::Error);

/// One line of a printed patch, as git2 hands it out: its origin sigil,
/// its bytes, and its numbers in the old and the new file.
pub struct PatchLine {
    pub origin: char,
    pub content: Vec<u8>,
    pub old_lineno: Option<u32>,
    pub new_lineno: Option<u32>,
}

/// The mathematical value of a patch line.
pub struct PatchLineView {
    pub origin: char,
    pub content: Seq<u8>,
    pub old_lineno: Option<u32>,
    pub new_lineno: Option<u32>,
}

impl View for PatchLine {
    type V = PatchLineView;

    open spec fn view(&self) -> PatchLineView {
        PatchLineView {
            origin: self.origin,
            content: self.content@,
            old_lineno: self.old_lineno,
            new_lineno: self.new_lineno,
        }
    }
}

pub open spec fn patch_view(lines: Seq<PatchLine>) -> Seq<PatchLineView> {
    lines.map_values(|l: PatchLine| l@)
}

/// The diff line a patch line becomes, if any: file and hunk headers keep
/// their text as it is; an added, removed or context line loses its
/// trailing newlines and keeps the line numbers of the sides it belongs to;
/// other lines are left out.
pub open spec fn diff_line_of(p: PatchLineView) -> Seq<DiffLineView> {
    if p.origin == 'F' || p.origin == 'H' {
        seq![DiffLineView { kind: DiffLineType::Header, content: lossy_utf8(p.content), old_no: None, new_no: None }]
    } else if p.origin == '+' {
        seq![DiffLineView {
            kind: DiffLineType::Added,
            content: strip_trailing_newlines(lossy_utf8(p.content)),
            old_no: None,
            new_no: p.new_lineno,
        }]
    } else if p.origin == '-' {
        seq![DiffLineView {
            kind: DiffLineType::Removed,
            content: strip_trailing_newlines(lossy_utf8(p.content)),
            old_no: p.old_lineno,
            new_no: None,
        }]
    } else if p.origin == ' ' {
        seq![DiffLineView {
            kind: DiffLineType::Context,
            content: strip_trailing_newlines(lossy_utf8(p.content)),
            old_no: p.old_lineno,
            new_no: p.new_lineno,
        }]
    } else {
        seq![]
    }
}

/// The diff lines of a printed patch, in order.
pub open spec fn diff_of_patch(ps: Seq<PatchLineView>) -> Seq<DiffLineView>
    decreases ps.len(),
{
    if ps.len() == 0 {
        seq![]
    } else {
        diff_of_patch(ps.drop_last()) + diff_line_of(ps.last())
    }
}

/// Prints a diff as a patch and records its lines.
///
/// Calls `git2::Diff::print` with `DiffFormat::Patch`, with a callback that
/// records, for each line that git2 hands out, its `origin()`, `content()`,
/// `old_lineno()` and `new_lineno()`, and goes on. Nothing is claimed of
/// the lines: they depend on the repository and, for a diff against the
/// working directory, on the files on disk.
#[verifier::external_body]
fn print_patch_lines(diff: &git2::Diff) -> (res: Result<Vec<PatchLine>, git2::Error>) {
    let mut lines: Vec<PatchLine> = Vec::new();
    diff.print(git2::DiffFormat::Patch, |_delta, _hunk, line| {
        lines.push(PatchLine {
            origin: line.origin(),
            content: line.content().to_vec(),
            old_lineno: line.old_lineno(),
            new_lineno: line.new_lineno(),
        });
        true
    }).map(|()| lines)
}

/// The message of a git2 error.
///
/// Calls `ToString::to_string` on a `git2::Error`, whose `Display` writes
/// the message, followed by its class and code where git2 has them.
/// Nothing is claimed of the text.
#[verifier::external_body]
pub(crate) fn git_error_text(e: &git2::Error) -> (res: String) {
    e.to_string()
}

/// The diff lines of the patch lines `patch`, in order: see `diff_line_of`.
pub fn lines_from_patch(patch: &Vec<PatchLine>) -> (res: Vec<GitDiffLine>)
    ensures
        diff_view(res@) == diff_of_patch(patch_view(patch@)),
{
    let mut res: Vec<GitDiffLine> = Vec::new();
    let mut i: usize = 0;
    while i < patch.len()
        invariant
            i <= patch@.len(),
            diff_view(res@) == diff_of_patch(patch_view(patch@.take(i as int))),
        decreases patch@.len() - i,
    {
        let line = &patch[i];
        let ghost before = res@;
        assert(patch_view(patch@.take(i + 1)).drop_last() == patch_view(patch@.take(i as int)));
        assert(patch_view(patch@.take(i + 1)).last() == line@);
        let origin = line.origin;
        if origin == 'F' || origin == 'H' {
            let content = utf8_lossy(line.content.as_slice());
            res.push(
                GitDiffLine {
                    line_type: DiffLineType::Header,
                    content,
                    old_line_number: None,
                    new_line_number: None,
                },
            );
        } else if origin == '+' || origin == '-' || origin == ' ' {
            let full = utf8_lossy(line.content.as_slice());
            let content = trim_trailing_newlines(full.as_str()).to_owned();
            let (line_type, old_line_number, new_line_number) = if origin == '+' {
                (DiffLineType::Added, None, line.new_lineno)
            } else if origin == '-' {
                (DiffLineType::Removed, line.old_lineno, None)
            } else {
                (DiffLineType::Context, line.old_lineno, line.new_lineno)
            };
            res.push(GitDiffLine { line_type, content, old_line_number, new_line_number });
        }
        assert(diff_view(res@) =~= diff_of_patch(patch_view(patch@.take(i + 1))));
        i += 1;
    }
    assert(patch@.take(patch@.len() as int) == patch@);
    res
}

/// The diff lines of the patch that `diff` prints, in order; the message of
/// git2's error if printing fails.
pub fn parse_diff_to_lines(diff: &mut git2::Diff) -> (res: Result<Vec<GitDiffLine>, String>)
    ensures
        res matches Ok(lines) ==> exists|patch: Seq<PatchLineView>|
            diff_view(lines@) == #[trigger] diff_of_patch(patch),
{
    match print_patch_lines(diff) {
        Ok(patch) => {
            let lines = lines_from_patch(&patch);
            Ok(lines)
        },
        Err(e) => Err(git_error_text(&e)),
    }
}

/// Each diff line of a printed patch comes from one of its lines, whose
/// origin gives its kind, and keeps that patch line's own numbers on the
/// sides it belongs to: an added line its new number and no old one, a
/// removed line its old number and no new one, a context line both.
pub proof fn law_patch_lines_keep_their_numbers(ps: Seq<PatchLineView>)
    ensures
        forall|k: int|
            0 <= k < diff_of_patch(ps).len() ==> exists|j: int|
                0 <= j < ps.len() && line_keeps_numbers(#[trigger] ps[j], #[trigger] diff_of_patch(ps)[k]),
    decreases ps.len(),
{
    let d = diff_of_patch(ps);
    if ps.len() > 0 {
        let front = ps.drop_last();
        law_patch_lines_keep_their_numbers(front);
        let head = diff_of_patch(front);
        assert forall|k: int| 0 <= k < d.len() implies exists|j: int|
            0 <= j < ps.len() && line_keeps_numbers(#[trigger] ps[j], #[trigger] d[k]) by {
            if k < head.len() {
                assert(d[k] == head[k]);
                let j = choose|j: int| 0 <= j < front.len() && line_keeps_numbers(#[trigger] front[j], head[k]);
                assert(ps[j] == front[j]);
            } else {
                let j = ps.len() - 1;
                assert(d[k] == diff_line_of(ps.last())[k - head.len()]);
                assert(line_keeps_numbers(ps[j], d[k]));
            }
        }
    }
}

/// The diff line `l` shows the patch line `p`: its kind is the one the
/// origin names, and it carries `p`'s numbers on its own sides only.
pub open spec fn line_keeps_numbers(p: PatchLineView, l: DiffLineView) -> bool {
    match l.kind {
        DiffLineType::Added => p.origin == '+' && l.old_no is None && l.new_no == p.new_lineno,
        DiffLineType::Removed => p.origin == '-' && l.old_no == p.old_lineno && l.new_no is None,
        DiffLineType::Context => p.origin == ' ' && l.old_no == p.old_lineno && l.new_no == p.new_lineno,
        DiffLineType::Header => (p.origin == 'F' || p.origin == 'H') && l.old_no is None && l.new_no is None,
    }
}

} // verus!
