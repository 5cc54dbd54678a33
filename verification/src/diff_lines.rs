//! Diff lines and the line diff of two texts built on their longest common subsequence.

use vstd::prelude::*;
use crate::lcs::{
    Lines, lcs_len, lcs_pairs, is_common_subsequence, law_lcs_is_longest_common_subsequence,
    lemma_pairs_common, lemma_drop_last_common, lines_view, longest_common_subsequence, same_pairs,
};

verus! {

/// What a line of a diff shows.
#[derive(Debug, Clone, Copy, PartialEq, Eq, Structural)]
pub enum DiffLineType {
    Header,
    Added,
    Removed,
    Context,
}

/// One line of a diff, with its numbers in the old and the new version.
#[derive(Debug, Clone)]
pub struct GitDiffLine {
    pub line_type: DiffLineType,
    pub content: String,
    pub old_line_number: Option<u32>,
    pub new_line_number: Option<u32>,
}

/// The mathematical value of a diff line.
pub struct DiffLineView {
    pub kind: DiffLineType,
    pub content: Seq<char>,
    pub old_no: Option<u32>,
    pub new_no: Option<u32>,
}

impl View for GitDiffLine {
    type V = DiffLineView;

    open spec fn view(&self) -> DiffLineView {
        DiffLineView {
            kind: self.line_type,
            content: self.content@,
            old_no: self.old_line_number,
            new_no: self.new_line_number,
        }
    }
}

/// The values of a sequence of diff lines.
pub open spec fn diff_view(lines: Seq<GitDiffLine>) -> Seq<DiffLineView> {
    lines.map_values(|l: GitDiffLine| l@)
}

/// Old lines `from..to`, shown as removed, numbered from `from + 1`.
pub open spec fn removed_run(old: Lines, from: int, to: int) -> Seq<DiffLineView> {
    Seq::new(
        (to - from) as nat,
        |t: int|
            DiffLineView {
                kind: DiffLineType::Removed,
                content: old[from + t],
                old_no: Some((from + t + 1) as u32),
                new_no: None,
            },
    )
}

/// New lines `from..to`, shown as added, numbered from `from + 1`.
pub open spec fn added_run(new: Lines, from: int, to: int) -> Seq<DiffLineView> {
    Seq::new(
        (to - from) as nat,
        |t: int|
            DiffLineView {
                kind: DiffLineType::Added,
                content: new[from + t],
                old_no: None,
                new_no: Some((from + t + 1) as u32),
            },
    )
}

/// The line that old line `p.0` and new line `p.1` have in common.
pub open spec fn context_line(old: Lines, p: (int, int)) -> DiffLineView {
    DiffLineView {
        kind: DiffLineType::Context,
        content: old[p.0],
        old_no: Some((p.0 + 1) as u32),
        new_no: Some((p.1 + 1) as u32),
    }
}

/// The old and new positions right after the last of `pairs`.
pub open spec fn after_pairs(pairs: Seq<(int, int)>) -> (int, int) {
    if pairs.len() == 0 {
        (0, 0)
    } else {
        (pairs.last().0 + 1, pairs.last().1 + 1)
    }
}

/// The diff up to and including the last of `pairs`: before each common
/// line, the old lines skipped since the previous one as removed, then the
/// new lines skipped as added, then the common line as context.
pub open spec fn diff_through(old: Lines, new: Lines, pairs: Seq<(int, int)>) -> Seq<DiffLineView>
    decreases pairs.len(),
{
    if pairs.len() == 0 {
        seq![]
    } else {
        let prev = pairs.drop_last();
        let p = pairs.last();
        let start = after_pairs(prev);
        diff_through(old, new, prev) + removed_run(old, start.0, p.0) + added_run(new, start.1, p.1)
            + seq![context_line(old, p)]
    }
}

/// The whole diff of `old` and `new` along the common lines `pairs`: the
/// diff through the last common line, then the remaining old lines as
/// removed, then the remaining new lines as added.
pub open spec fn diff_along(old: Lines, new: Lines, pairs: Seq<(int, int)>) -> Seq<DiffLineView> {
    let end = after_pairs(pairs);
    diff_through(old, new, pairs) + removed_run(old, end.0, old.len() as int) + added_run(
        new,
        end.1,
        new.len() as int,
    )
}

/// The line diff of `old` and `new` along their longest common subsequence.
pub open spec fn line_diff(old: Lines, new: Lines) -> Seq<DiffLineView> {
    diff_along(old, new, lcs_pairs(old, new, old.len() as int, new.len() as int))
}

/// The contents of the lines of a diff that belong to the old version.
pub open spec fn old_side(d: Seq<DiffLineView>) -> Lines
    decreases d.len(),
{
    if d.len() == 0 {
        seq![]
    } else {
        let rest = old_side(d.drop_last());
        match d.last().kind {
            DiffLineType::Removed => rest.push(d.last().content),
            DiffLineType::Context => rest.push(d.last().content),
            _ => rest,
        }
    }
}

/// The contents of the lines of a diff that belong to the new version.
pub open spec fn new_side(d: Seq<DiffLineView>) -> Lines
    decreases d.len(),
{
    if d.len() == 0 {
        seq![]
    } else {
        let rest = new_side(d.drop_last());
        match d.last().kind {
            DiffLineType::Added => rest.push(d.last().content),
            DiffLineType::Context => rest.push(d.last().content),
            _ => rest,
        }
    }
}

/// A line of a diff of `old` and `new` points at the right lines: removed
/// and context lines carry the number of the old line they show, added and
/// context lines the number of the new line; each carries no other number.
pub open spec fn line_numbered_in(old: Lines, new: Lines, l: DiffLineView) -> bool {
    match l.kind {
        DiffLineType::Removed => {
            &&& l.new_no is None
            &&& l.old_no matches Some(n) && 1 <= n <= old.len() && old[n - 1] == l.content
        },
        DiffLineType::Added => {
            &&& l.old_no is None
            &&& l.new_no matches Some(n) && 1 <= n <= new.len() && new[n - 1] == l.content
        },
        DiffLineType::Context => {
            &&& l.old_no matches Some(n) && 1 <= n <= old.len() && old[n - 1] == l.content
            &&& l.new_no matches Some(m) && 1 <= m <= new.len() && new[m - 1] == l.content
        },
        DiffLineType::Header => false,
    }
}

/// The number of context lines of a diff.
pub open spec fn context_count(d: Seq<DiffLineView>) -> nat
    decreases d.len(),
{
    if d.len() == 0 {
        0
    } else {
        context_count(d.drop_last()) + if d.last().kind == DiffLineType::Context {
            1nat
        } else {
            0nat
        }
    }
}

proof fn lemma_old_side_add(x: Seq<DiffLineView>, y: Seq<DiffLineView>)
    ensures
        old_side(x + y) == old_side(x) + old_side(y),
        new_side(x + y) == new_side(x) + new_side(y),
        context_count(x + y) == context_count(x) + context_count(y),
    decreases y.len(),
{
    if y.len() == 0 {
        assert(x + y == x);
    } else {
        lemma_old_side_add(x, y.drop_last());
        assert((x + y).drop_last() == x + y.drop_last());
        assert((x + y).last() == y.last());
    }
}

proof fn lemma_removed_run_sides(old: Lines, from: int, to: int)
    requires
        0 <= from <= to <= old.len(),
    ensures
        old_side(removed_run(old, from, to)) == old.subrange(from, to),
        new_side(removed_run(old, from, to)) == Seq::<Seq<char>>::empty(),
        context_count(removed_run(old, from, to)) == 0,
    decreases to - from,
{
    if from < to {
        lemma_removed_run_sides(old, from, to - 1);
        assert(removed_run(old, from, to).drop_last() == removed_run(old, from, to - 1));
        assert(old.subrange(from, to) == old.subrange(from, to - 1).push(old[to - 1]));
    } else {
        assert(removed_run(old, from, to) == Seq::<DiffLineView>::empty());
        assert(old.subrange(from, to) == Seq::<Seq<char>>::empty());
    }
}

proof fn lemma_added_run_sides(new: Lines, from: int, to: int)
    requires
        0 <= from <= to <= new.len(),
    ensures
        new_side(added_run(new, from, to)) == new.subrange(from, to),
        old_side(added_run(new, from, to)) == Seq::<Seq<char>>::empty(),
        context_count(added_run(new, from, to)) == 0,
    decreases to - from,
{
    if from < to {
        lemma_added_run_sides(new, from, to - 1);
        assert(added_run(new, from, to).drop_last() == added_run(new, from, to - 1));
        assert(new.subrange(from, to) == new.subrange(from, to - 1).push(new[to - 1]));
    } else {
        assert(added_run(new, from, to) == Seq::<DiffLineView>::empty());
        assert(new.subrange(from, to) == Seq::<Seq<char>>::empty());
    }
}

/// A context line alone belongs to both sides and counts once.
proof fn lemma_context_line_sides(old: Lines, p: (int, int))
    ensures
        old_side(seq![context_line(old, p)]) == seq![old[p.0]],
        new_side(seq![context_line(old, p)]) == seq![old[p.0]],
        context_count(seq![context_line(old, p)]) == 1,
{
    let c = seq![context_line(old, p)];
    assert(c.drop_last() == Seq::<DiffLineView>::empty());
    assert(c.last() == context_line(old, p));
    assert(old_side(c.drop_last()) == Seq::<Seq<char>>::empty());
    assert(new_side(c.drop_last()) == Seq::<Seq<char>>::empty());
    assert(context_count(c.drop_last()) == 0);
    assert(Seq::<Seq<char>>::empty().push(old[p.0]) == seq![old[p.0]]);
}

/// `pairs` is a common subsequence of `old` and `new`.
proof fn lemma_diff_through_sides(old: Lines, new: Lines, pairs: Seq<(int, int)>)
    requires
        is_common_subsequence(old, new, pairs),
    ensures
        old_side(diff_through(old, new, pairs)) == old.subrange(0, after_pairs(pairs).0),
        new_side(diff_through(old, new, pairs)) == new.subrange(0, after_pairs(pairs).1),
        context_count(diff_through(old, new, pairs)) == pairs.len(),
        0 <= after_pairs(pairs).0 <= old.len(),
        0 <= after_pairs(pairs).1 <= new.len(),
    decreases pairs.len(),
{
    if pairs.len() > 0 {
        let prev = pairs.drop_last();
        let p = pairs.last();
        lemma_drop_last_common(old, new, pairs);
        lemma_diff_through_sides(old, new, prev);
        let start = after_pairs(prev);
        assert(0 <= p.0 < old.len() && 0 <= p.1 < new.len()) by {
            assert(pairs[pairs.len() - 1].0 == p.0);
        }
        assert(start.0 <= p.0 && start.1 <= p.1) by {
            if prev.len() > 0 {
                assert(prev.last() == pairs[pairs.len() - 2]);
                assert(pairs[pairs.len() - 2].0 < pairs[pairs.len() - 1].0);
            }
        }
        assert(old[p.0] == new[p.1]) by {
            assert(pairs[pairs.len() - 1].0 == p.0);
        }
        let d0 = diff_through(old, new, prev);
        let r = removed_run(old, start.0, p.0);
        let a = added_run(new, start.1, p.1);
        let c = seq![context_line(old, p)];
        lemma_removed_run_sides(old, start.0, p.0);
        lemma_added_run_sides(new, start.1, p.1);
        lemma_old_side_add(d0, r);
        lemma_old_side_add(d0 + r, a);
        lemma_old_side_add(d0 + r + a, c);
        lemma_context_line_sides(old, p);
        assert(old.subrange(0, start.0) + old.subrange(start.0, p.0) + seq![old[p.0]] == old.subrange(
            0,
            p.0 + 1,
        ));
        assert(new.subrange(0, start.1) + new.subrange(start.1, p.1) + seq![new[p.1]] == new.subrange(
            0,
            p.1 + 1,
        ));
    }
}

/// A diff along a common subsequence gives back both texts: its removed
/// and context lines are the old text, its added and context lines are the
/// new text, and it has one context line per common line.
pub proof fn law_diff_along_restores_both_sides(old: Lines, new: Lines, pairs: Seq<(int, int)>)
    requires
        is_common_subsequence(old, new, pairs),
    ensures
        old_side(diff_along(old, new, pairs)) == old,
        new_side(diff_along(old, new, pairs)) == new,
        context_count(diff_along(old, new, pairs)) == pairs.len(),
{
    lemma_diff_through_sides(old, new, pairs);
    let end = after_pairs(pairs);
    let d0 = diff_through(old, new, pairs);
    let r = removed_run(old, end.0, old.len() as int);
    let a = added_run(new, end.1, new.len() as int);
    lemma_removed_run_sides(old, end.0, old.len() as int);
    lemma_added_run_sides(new, end.1, new.len() as int);
    lemma_old_side_add(d0, r);
    lemma_old_side_add(d0 + r, a);
    assert(old.subrange(0, end.0) + old.subrange(end.0, old.len() as int) == old);
    assert(new.subrange(0, end.1) + new.subrange(end.1, new.len() as int) == new);
}

/// The line diff of two texts gives back both texts, and its context lines
/// are as many as a longest common subsequence of the two has lines: no
/// other common subsequence keeps more lines unchanged.
pub proof fn law_line_diff_restores_both_sides(old: Lines, new: Lines, other: Seq<(int, int)>)
    requires
        is_common_subsequence(old, new, other),
    ensures
        old_side(line_diff(old, new)) == old,
        new_side(line_diff(old, new)) == new,
        context_count(line_diff(old, new)) == lcs_len(old, new, old.len() as int, new.len() as int),
        other.len() <= context_count(line_diff(old, new)),
{
    law_lcs_is_longest_common_subsequence(old, new, other);
    law_diff_along_restores_both_sides(old, new, lcs_pairs(old, new, old.len() as int, new.len() as int));
}

/// Every line of `d` points at the right lines of `old` and `new`.
pub open spec fn all_numbered_in(old: Lines, new: Lines, d: Seq<DiffLineView>) -> bool {
    forall|k: int| 0 <= k < d.len() ==> line_numbered_in(old, new, #[trigger] d[k])
}

proof fn lemma_all_numbered_add(old: Lines, new: Lines, x: Seq<DiffLineView>, y: Seq<DiffLineView>)
    requires
        all_numbered_in(old, new, x),
        all_numbered_in(old, new, y),
    ensures
        all_numbered_in(old, new, x + y),
{
    assert forall|k: int| 0 <= k < (x + y).len() implies line_numbered_in(old, new, #[trigger] (x + y)[k]) by {
        if k < x.len() {
            assert((x + y)[k] == x[k]);
        } else {
            assert((x + y)[k] == y[k - x.len()]);
        }
    }
}

proof fn lemma_runs_numbered(old: Lines, new: Lines, from: int, to: int, from2: int, to2: int)
    requires
        0 <= from <= to <= old.len(),
        0 <= from2 <= to2 <= new.len(),
        old.len() < u32::MAX,
        new.len() < u32::MAX,
    ensures
        all_numbered_in(old, new, removed_run(old, from, to)),
        all_numbered_in(old, new, added_run(new, from2, to2)),
{
}

proof fn lemma_diff_through_numbered(old: Lines, new: Lines, pairs: Seq<(int, int)>)
    requires
        is_common_subsequence(old, new, pairs),
        old.len() < u32::MAX,
        new.len() < u32::MAX,
    ensures
        all_numbered_in(old, new, diff_through(old, new, pairs)),
        0 <= after_pairs(pairs).0 <= old.len(),
        0 <= after_pairs(pairs).1 <= new.len(),
    decreases pairs.len(),
{
    lemma_diff_through_sides(old, new, pairs);
    if pairs.len() > 0 {
        let prev = pairs.drop_last();
        let p = pairs.last();
        lemma_drop_last_common(old, new, pairs);
        lemma_diff_through_numbered(old, new, prev);
        lemma_diff_through_sides(old, new, prev);
        let start = after_pairs(prev);
        assert(0 <= p.0 < old.len() && 0 <= p.1 < new.len() && old[p.0] == new[p.1]) by {
            assert(pairs[pairs.len() - 1].0 == p.0);
        }
        assert(start.0 <= p.0 && start.1 <= p.1) by {
            if prev.len() > 0 {
                assert(prev.last() == pairs[pairs.len() - 2]);
                assert(pairs[pairs.len() - 2].0 < pairs[pairs.len() - 1].0);
            }
        }
        let d0 = diff_through(old, new, prev);
        let r = removed_run(old, start.0, p.0);
        let a = added_run(new, start.1, p.1);
        let c = seq![context_line(old, p)];
        lemma_runs_numbered(old, new, start.0, p.0, start.1, p.1);
        assert(all_numbered_in(old, new, c)) by {
            assert(c[0] == context_line(old, p));
        }
        lemma_all_numbered_add(old, new, d0, r);
        lemma_all_numbered_add(old, new, d0 + r, a);
        lemma_all_numbered_add(old, new, d0 + r + a, c);
    }
}

/// In a diff along a common subsequence of two texts of fewer than
/// `u32::MAX` lines each, every line carries the number of the old line it
/// removes or keeps, the number of the new line it adds or keeps, and
/// nothing else; and no line is a header.
pub proof fn law_diff_along_numbers_lines(old: Lines, new: Lines, pairs: Seq<(int, int)>)
    requires
        is_common_subsequence(old, new, pairs),
        old.len() < u32::MAX,
        new.len() < u32::MAX,
    ensures
        all_numbered_in(old, new, diff_along(old, new, pairs)),
{
    lemma_diff_through_numbered(old, new, pairs);
    let end = after_pairs(pairs);
    lemma_runs_numbered(old, new, end.0, old.len() as int, end.1, new.len() as int);
    lemma_all_numbered_add(old, new, diff_through(old, new, pairs), removed_run(old, end.0, old.len() as int));
    lemma_all_numbered_add(
        old,
        new,
        diff_through(old, new, pairs) + removed_run(old, end.0, old.len() as int),
        added_run(new, end.1, new.len() as int),
    );
}

proof fn lemma_diff_view_push(s: Seq<GitDiffLine>, x: GitDiffLine)
    ensures
        diff_view(s.push(x)) == diff_view(s).push(x@),
{
    assert(diff_view(s.push(x)) =~= diff_view(s).push(x@));
}

/// The line diff of `old_lines` and `new_lines`: along a longest common
/// subsequence of the two, the old lines skipped before each common line
/// as removed, then the new lines skipped as added, then the common line as
/// context, and at the end the remaining old lines as removed and the
/// remaining new lines as added. Lines are numbered from 1 on each side.
pub fn create_diff_lines(old_lines: &[&str], new_lines: &[&str]) -> (result: Vec<GitDiffLine>)
    requires
        old_lines@.len() < u32::MAX,
        new_lines@.len() < u32::MAX,
    ensures
        diff_view(result@) == line_diff(lines_view(old_lines@), lines_view(new_lines@)),
{
    let ghost a = lines_view(old_lines@);
    let ghost b = lines_view(new_lines@);
    let mut result: Vec<GitDiffLine> = Vec::new();

    let lcs = longest_common_subsequence(old_lines, new_lines);
    let ghost pairs = lcs_pairs(a, b, a.len() as int, b.len() as int);
    proof {
        lemma_pairs_common(a, b, a.len() as int, b.len() as int);
    }
    let mut old_idx: usize = 0;
    let mut new_idx: usize = 0;
    let mut old_line_num: u32 = 1;
    let mut new_line_num: u32 = 1;

    let mut k: usize = 0;
    while k < lcs.len()
        invariant
            a == lines_view(old_lines@),
            b == lines_view(new_lines@),
            old_lines@.len() < u32::MAX,
            new_lines@.len() < u32::MAX,
            pairs == lcs_pairs(a, b, a.len() as int, b.len() as int),
            is_common_subsequence(a, b, pairs),
            same_pairs(lcs@, pairs),
            0 <= k <= lcs@.len(),
            old_idx as int == after_pairs(pairs.take(k as int)).0,
            new_idx as int == after_pairs(pairs.take(k as int)).1,
            old_idx <= old_lines@.len(),
            new_idx <= new_lines@.len(),
            old_line_num == old_idx + 1,
            new_line_num == new_idx + 1,
            diff_view(result@) == diff_through(a, b, pairs.take(k as int)),
        decreases lcs@.len() - k,
    {
        let (lcs_old_idx, lcs_new_idx) = lcs[k];
        let ghost done = pairs.take(k as int);
        let ghost start = (old_idx as int, new_idx as int);
        assert(pairs.take(k + 1).drop_last() == done);
        assert(pairs.take(k + 1).last() == pairs[k as int]);
        assert(lcs_old_idx as int == pairs[k as int].0 && lcs_new_idx as int == pairs[k as int].1);
        assert(start.0 <= lcs_old_idx && start.1 <= lcs_new_idx) by {
            if k > 0 {
                assert(done.last() == pairs[k - 1]);
                assert(pairs[k - 1].0 < pairs[k as int].0);
            }
        }
        assert(lcs_old_idx < old_lines@.len() && lcs_new_idx < new_lines@.len()) by {
            assert(0 <= pairs[k as int].0 < a.len());
        }

        // Add removed lines before this common line
        while old_idx < lcs_old_idx
            invariant
                a == lines_view(old_lines@),
                old_lines@.len() < u32::MAX,
                start.0 <= old_idx <= lcs_old_idx < old_lines@.len(),
                old_line_num == old_idx + 1,
                diff_view(result@) == diff_through(a, b, done) + removed_run(a, start.0, old_idx as int),
            decreases lcs_old_idx - old_idx,
        {
            let line = GitDiffLine {
                line_type: DiffLineType::Removed,
                content: old_lines[old_idx].to_owned(),
                old_line_number: Some(old_line_num),
                new_line_number: None,
            };
            proof {
                lemma_diff_view_push(result@, line);
                assert(removed_run(a, start.0, old_idx + 1) =~= removed_run(a, start.0, old_idx as int).push(line@));
            }
            result.push(line);
            old_idx += 1;
            old_line_num += 1;
        }

        // Add added lines before this common line
        while new_idx < lcs_new_idx
            invariant
                b == lines_view(new_lines@),
                new_lines@.len() < u32::MAX,
                start.1 <= new_idx <= lcs_new_idx < new_lines@.len(),
                new_line_num == new_idx + 1,
                diff_view(result@) == diff_through(a, b, done) + removed_run(a, start.0, lcs_old_idx as int)
                    + added_run(b, start.1, new_idx as int),
            decreases lcs_new_idx - new_idx,
        {
            let line = GitDiffLine {
                line_type: DiffLineType::Added,
                content: new_lines[new_idx].to_owned(),
                old_line_number: None,
                new_line_number: Some(new_line_num),
            };
            proof {
                lemma_diff_view_push(result@, line);
                assert(added_run(b, start.1, new_idx + 1) =~= added_run(b, start.1, new_idx as int).push(line@));
            }
            result.push(line);
            new_idx += 1;
            new_line_num += 1;
        }

        // Add the common line
        if old_idx < old_lines.len() && new_idx < new_lines.len() {
            let line = GitDiffLine {
                line_type: DiffLineType::Context,
                content: old_lines[old_idx].to_owned(),
                old_line_number: Some(old_line_num),
                new_line_number: Some(new_line_num),
            };
            proof {
                lemma_diff_view_push(result@, line);
                assert(line@ == context_line(a, pairs[k as int]));
            }
            result.push(line);
            old_idx += 1;
            new_idx += 1;
            old_line_num += 1;
            new_line_num += 1;
        }
        k += 1;
    }
    assert(pairs.take(lcs@.len() as int) == pairs);
    let ghost end = (old_idx as int, new_idx as int);

    // Add remaining removed lines
    while old_idx < old_lines.len()
        invariant
            a == lines_view(old_lines@),
            old_lines@.len() < u32::MAX,
            end.0 <= old_idx <= old_lines@.len(),
            old_line_num == old_idx + 1,
            diff_view(result@) == diff_through(a, b, pairs) + removed_run(a, end.0, old_idx as int),
        decreases old_lines@.len() - old_idx,
    {
        let line = GitDiffLine {
            line_type: DiffLineType::Removed,
            content: old_lines[old_idx].to_owned(),
            old_line_number: Some(old_line_num),
            new_line_number: None,
        };
        proof {
            lemma_diff_view_push(result@, line);
            assert(removed_run(a, end.0, old_idx + 1) =~= removed_run(a, end.0, old_idx as int).push(line@));
        }
        result.push(line);
        old_idx += 1;
        old_line_num += 1;
    }

    // Add remaining added lines
    while new_idx < new_lines.len()
        invariant
            b == lines_view(new_lines@),
            new_lines@.len() < u32::MAX,
            end.1 <= new_idx <= new_lines@.len(),
            new_line_num == new_idx + 1,
            diff_view(result@) == diff_through(a, b, pairs) + removed_run(a, end.0, a.len() as int)
                + added_run(b, end.1, new_idx as int),
        decreases new_lines@.len() - new_idx,
    {
        let line = GitDiffLine {
            line_type: DiffLineType::Added,
            content: new_lines[new_idx].to_owned(),
            old_line_number: None,
            new_line_number: Some(new_line_num),
        };
        proof {
            lemma_diff_view_push(result@, line);
            assert(added_run(b, end.1, new_idx + 1) =~= added_run(b, end.1, new_idx as int).push(line@));
        }
        result.push(line);
        new_idx += 1;
        new_line_num += 1;
    }

    result
}

proof fn lemma_identical_prefix(a: Lines, i: int)
    requires
        0 <= i <= a.len(),
    ensures
        lcs_pairs(a, a, i, i) == Seq::new(i as nat, |k: int| (k, k)),
        diff_through(a, a, lcs_pairs(a, a, i, i)) == Seq::new(i as nat, |k: int| context_line(a, (k, k))),
    decreases i,
{
    if i > 0 {
        lemma_identical_prefix(a, i - 1);
        let prev = lcs_pairs(a, a, i - 1, i - 1);
        let pairs = lcs_pairs(a, a, i, i);
        assert(pairs == prev.push((i - 1, i - 1)));
        assert(pairs =~= Seq::new(i as nat, |k: int| (k, k)));
        assert(pairs.drop_last() == prev);
        assert(after_pairs(prev) == (i - 1, i - 1));
        assert(removed_run(a, i - 1, i - 1) =~= Seq::<DiffLineView>::empty());
        assert(added_run(a, i - 1, i - 1) =~= Seq::<DiffLineView>::empty());
        assert(diff_through(a, a, pairs) =~= Seq::new(i as nat, |k: int| context_line(a, (k, k))));
    } else {
        assert(lcs_pairs(a, a, i, i) =~= Seq::new(i as nat, |k: int| (k, k)));
        assert(diff_through(a, a, lcs_pairs(a, a, i, i)) =~= Seq::new(i as nat, |k: int| context_line(a, (k, k))));
    }
}

/// Diffing a text against itself shows no change: every line of the text,
/// in order, as a context line numbered the same on both sides.
pub proof fn law_identical_texts_diff_as_context(a: Lines)
    ensures
        line_diff(a, a) == Seq::new(a.len(), |k: int| context_line(a, (k, k))),
{
    lemma_identical_prefix(a, a.len() as int);
    let pairs = lcs_pairs(a, a, a.len() as int, a.len() as int);
    assert(after_pairs(pairs) == (a.len() as int, a.len() as int));
    assert(removed_run(a, a.len() as int, a.len() as int) =~= Seq::<DiffLineView>::empty());
    assert(added_run(a, a.len() as int, a.len() as int) =~= Seq::<DiffLineView>::empty());
    assert(line_diff(a, a) =~= Seq::new(a.len(), |k: int| context_line(a, (k, k))));
}

/// The number of added lines of a diff.
pub open spec fn added_count(d: Seq<DiffLineView>) -> nat
    decreases d.len(),
{
    if d.len() == 0 {
        0
    } else {
        added_count(d.drop_last()) + if d.last().kind == DiffLineType::Added {
            1nat
        } else {
            0nat
        }
    }
}

/// The number of removed lines of a diff.
pub open spec fn removed_count(d: Seq<DiffLineView>) -> nat
    decreases d.len(),
{
    if d.len() == 0 {
        0
    } else {
        removed_count(d.drop_last()) + if d.last().kind == DiffLineType::Removed {
            1nat
        } else {
            0nat
        }
    }
}

proof fn lemma_side_lengths(d: Seq<DiffLineView>)
    ensures
        old_side(d).len() == removed_count(d) + context_count(d),
        new_side(d).len() == added_count(d) + context_count(d),
    decreases d.len(),
{
    if d.len() > 0 {
        lemma_side_lengths(d.drop_last());
    }
}

/// Diffing the texts the other way round swaps the added and the removed
/// lines in number and keeps the number of context lines.
pub proof fn law_swapped_diff_swaps_counts(old: Lines, new: Lines)
    ensures
        context_count(line_diff(new, old)) == context_count(line_diff(old, new)),
        added_count(line_diff(new, old)) == removed_count(line_diff(old, new)),
        removed_count(line_diff(new, old)) == added_count(line_diff(old, new)),
{
    let none = Seq::<(int, int)>::empty();
    law_line_diff_restores_both_sides(old, new, none);
    law_line_diff_restores_both_sides(new, old, none);
    crate::lcs::law_lcs_len_symmetric(old, new, old.len() as int, new.len() as int);
    lemma_side_lengths(line_diff(old, new));
    lemma_side_lengths(line_diff(new, old));
}

} // verus!
