//! Longest common subsequence of two sequences of lines.

use vstd::prelude::*;
use crate::text::str_eq;

verus! {

/// The lines of a text, each as its characters.
pub type Lines = Seq<Seq<char>>;

/// The characters of each line of a slice of string slices.
pub open spec fn lines_view(lines: Seq<&str>) -> Lines {
    lines.map_values(|l: &str| l@)
}

pub open spec fn max_nat(x: nat, y: nat) -> nat {
    if x >= y { x } else { y }
}

/// Length of a longest common subsequence of the first `i` lines of `a`
/// and the first `j` lines of `b`.
pub open spec fn lcs_len(a: Lines, b: Lines, i: int, j: int) -> nat
    decreases i + j,
{
    if i <= 0 || j <= 0 {
        0
    } else if a[i - 1] == b[j - 1] {
        lcs_len(a, b, i - 1, j - 1) + 1
    } else {
        max_nat(lcs_len(a, b, i - 1, j), lcs_len(a, b, i, j - 1))
    }
}

/// The common subsequence of the first `i` lines of `a` and the first `j`
/// lines of `b` that is found by walking back from `(i, j)`: a match is
/// taken when the two lines are equal; otherwise the walk drops a line of
/// `a` when that keeps a strictly longer common subsequence, and a line of
/// `b` else. Each element is a pair of indices, into `a` and into `b`.
pub open spec fn lcs_pairs(a: Lines, b: Lines, i: int, j: int) -> Seq<(int, int)>
    decreases i + j,
{
    if i <= 0 || j <= 0 {
        seq![]
    } else if a[i - 1] == b[j - 1] {
        lcs_pairs(a, b, i - 1, j - 1).push((i - 1, j - 1))
    } else if lcs_len(a, b, i - 1, j) > lcs_len(a, b, i, j - 1) {
        lcs_pairs(a, b, i - 1, j)
    } else {
        lcs_pairs(a, b, i, j - 1)
    }
}

/// `pairs` is a common subsequence of `a` and `b` given by index pairs:
/// indices in range, strictly increasing on both sides, matching lines equal.
pub open spec fn is_common_subsequence(a: Lines, b: Lines, pairs: Seq<(int, int)>) -> bool {
    &&& forall|k: int|
        0 <= k < pairs.len() ==> 0 <= #[trigger] pairs[k].0 < a.len() && 0 <= pairs[k].1 < b.len()
    &&& forall|k: int| 0 <= k < pairs.len() ==> a[#[trigger] pairs[k].0] == b[pairs[k].1]
    &&& forall|k: int, l: int|
        0 <= k < l < pairs.len() ==> #[trigger] pairs[k].0 < #[trigger] pairs[l].0 && pairs[k].1
            < pairs[l].1
}

/// The pairs of `result` are those of `pairs`, in the same order.
pub open spec fn same_pairs(result: Seq<(usize, usize)>, pairs: Seq<(int, int)>) -> bool {
    &&& result.len() == pairs.len()
    &&& forall|k: int|
        0 <= k < pairs.len() ==> #[trigger] result[k].0 as int == pairs[k].0 && result[k].1 as int
            == pairs[k].1
}

proof fn lemma_lcs_len_bounds(a: Lines, b: Lines, i: int, j: int)
    ensures
        lcs_len(a, b, i, j) <= if i <= 0 || j <= 0 { 0 } else if i <= j { i } else { j },
    decreases i + j,
{
    if i > 0 && j > 0 {
        lemma_lcs_len_bounds(a, b, i - 1, j - 1);
        lemma_lcs_len_bounds(a, b, i - 1, j);
        lemma_lcs_len_bounds(a, b, i, j - 1);
    }
}

pub proof fn lemma_pairs_len(a: Lines, b: Lines, i: int, j: int)
    ensures
        lcs_pairs(a, b, i, j).len() == lcs_len(a, b, i, j),
    decreases i + j,
{
    if i > 0 && j > 0 {
        lemma_pairs_len(a, b, i - 1, j - 1);
        lemma_pairs_len(a, b, i - 1, j);
        lemma_pairs_len(a, b, i, j - 1);
    }
}

/// The walk-back of `lcs_pairs` yields a common subsequence whose pairs all
/// lie below `(i, j)`.
pub proof fn lemma_pairs_common(a: Lines, b: Lines, i: int, j: int)
    requires
        0 <= i <= a.len(),
        0 <= j <= b.len(),
    ensures
        is_common_subsequence(a, b, lcs_pairs(a, b, i, j)),
        forall|k: int|
            0 <= k < lcs_pairs(a, b, i, j).len() ==> #[trigger] lcs_pairs(a, b, i, j)[k].0 < i
                && lcs_pairs(a, b, i, j)[k].1 < j,
    decreases i + j,
{
    if i > 0 && j > 0 {
        if a[i - 1] == b[j - 1] {
            lemma_pairs_common(a, b, i - 1, j - 1);
            let p = lcs_pairs(a, b, i - 1, j - 1);
            let q = p.push((i - 1, j - 1));
            assert forall|k: int, l: int| 0 <= k < l < q.len() implies #[trigger] q[k].0 < #[trigger] q[l].0
                && q[k].1 < q[l].1 by {
                if l == q.len() - 1 {
                    assert(q[k] == p[k]);
                } else {
                    assert(q[k] == p[k] && q[l] == p[l]);
                }
            }
            assert forall|k: int| 0 <= k < q.len() implies a[#[trigger] q[k].0] == b[q[k].1] by {
                if k < p.len() {
                    assert(q[k] == p[k]);
                }
            }
            assert forall|k: int| 0 <= k < q.len() implies 0 <= #[trigger] q[k].0 < a.len() && 0 <= q[k].1 < b.len() by {
                if k < p.len() {
                    assert(q[k] == p[k]);
                }
            }
            assert forall|k: int| 0 <= k < q.len() implies #[trigger] q[k].0 < i && q[k].1 < j by {
                if k < p.len() {
                    assert(q[k] == p[k]);
                }
            }
        } else if lcs_len(a, b, i - 1, j) > lcs_len(a, b, i, j - 1) {
            lemma_pairs_common(a, b, i - 1, j);
        } else {
            lemma_pairs_common(a, b, i, j - 1);
        }
    }
}

/// Dropping the last pair of a common subsequence leaves a common subsequence.
pub proof fn lemma_drop_last_common(a: Lines, b: Lines, pairs: Seq<(int, int)>)
    requires
        is_common_subsequence(a, b, pairs),
        pairs.len() > 0,
    ensures
        is_common_subsequence(a, b, pairs.drop_last()),
{
    let rest = pairs.drop_last();
    assert forall|k: int| 0 <= k < rest.len() implies #[trigger] rest[k] == pairs[k] by {}
    assert forall|k: int, l: int| 0 <= k < l < rest.len() implies #[trigger] rest[k].0
        < #[trigger] rest[l].0 && rest[k].1 < rest[l].1 by {
        assert(rest[k] == pairs[k] && rest[l] == pairs[l]);
        assert(pairs[k].0 < pairs[l].0);
    }
    assert forall|k: int| 0 <= k < rest.len() implies a[#[trigger] rest[k].0] == b[rest[k].1] by {
        assert(rest[k] == pairs[k]);
    }
    assert forall|k: int| 0 <= k < rest.len() implies 0 <= #[trigger] rest[k].0 < a.len() && 0
        <= rest[k].1 < b.len() by {
        assert(rest[k] == pairs[k]);
    }
}

/// Every common subsequence of the first `i` lines of `a` and the first `j`
/// lines of `b` is at most `lcs_len(a, b, i, j)` long.
pub proof fn lemma_lcs_len_is_max(a: Lines, b: Lines, i: int, j: int, pairs: Seq<(int, int)>)
    requires
        0 <= i <= a.len(),
        0 <= j <= b.len(),
        is_common_subsequence(a, b, pairs),
        forall|k: int| 0 <= k < pairs.len() ==> #[trigger] pairs[k].0 < i && pairs[k].1 < j,
    ensures
        pairs.len() <= lcs_len(a, b, i, j),
    decreases i + j,
{
    if pairs.len() == 0 {
    } else if i == 0 || j == 0 {
        assert(pairs[0].0 < i && pairs[0].1 < j);
    } else {
        let last = pairs[pairs.len() - 1];
        let rest = pairs.drop_last();
        lemma_drop_last_common(a, b, pairs);
        assert(last.0 < i && last.1 < j);
        if last.0 == i - 1 && last.1 == j - 1 {
            // the last pair matches the last lines of both prefixes
            assert(a[i - 1] == b[j - 1]);
            assert forall|k: int| 0 <= k < rest.len() implies #[trigger] rest[k].0 < i - 1 && rest[k].1
                < j - 1 by {
                assert(rest[k] == pairs[k]);
                assert(pairs[k].0 < pairs[pairs.len() - 1].0);
            }
            lemma_lcs_len_is_max(a, b, i - 1, j - 1, rest);
        } else if last.0 < i - 1 {
            // no pair uses line i - 1 of a
            assert forall|k: int| 0 <= k < pairs.len() implies #[trigger] pairs[k].0 < i - 1 && pairs[k].1
                < j by {
                if k < pairs.len() - 1 {
                    assert(pairs[k].0 < pairs[pairs.len() - 1].0);
                }
            }
            lemma_lcs_len_is_max(a, b, i - 1, j, pairs);
            lemma_lcs_monotone(a, b, i - 1, j - 1);
        } else {
            // no pair uses line j - 1 of b
            assert(last.1 < j - 1);
            assert forall|k: int| 0 <= k < pairs.len() implies #[trigger] pairs[k].0 < i && pairs[k].1
                < j - 1 by {
                if k < pairs.len() - 1 {
                    assert(pairs[k].0 < pairs[pairs.len() - 1].0);
                    assert(pairs[k].1 < pairs[pairs.len() - 1].1);
                }
            }
            lemma_lcs_len_is_max(a, b, i, j - 1, pairs);
            lemma_lcs_monotone(a, b, i - 1, j - 1);
        }
    }
}

/// Taking one line more on either side never shortens the longest common
/// subsequence, and lengthens it by at most one.
proof fn lemma_lcs_monotone(a: Lines, b: Lines, i: int, j: int)
    requires
        0 <= i,
        0 <= j,
    ensures
        lcs_len(a, b, i, j) <= lcs_len(a, b, i + 1, j),
        lcs_len(a, b, i, j) <= lcs_len(a, b, i, j + 1),
        lcs_len(a, b, i + 1, j) <= lcs_len(a, b, i, j) + 1,
        lcs_len(a, b, i, j + 1) <= lcs_len(a, b, i, j) + 1,
    decreases i + j,
{
    if i > 0 {
        lemma_lcs_monotone(a, b, i - 1, j);
    }
    if j > 0 {
        lemma_lcs_monotone(a, b, i, j - 1);
    }
}

/// The walk-back finds a longest common subsequence: its pairs form a
/// common subsequence of the two sequences of lines, and no common
/// subsequence is longer.
pub proof fn law_lcs_is_longest_common_subsequence(a: Lines, b: Lines, other: Seq<(int, int)>)
    requires
        is_common_subsequence(a, b, other),
    ensures
        is_common_subsequence(a, b, lcs_pairs(a, b, a.len() as int, b.len() as int)),
        lcs_pairs(a, b, a.len() as int, b.len() as int).len() == lcs_len(a, b, a.len() as int, b.len() as int),
        other.len() <= lcs_pairs(a, b, a.len() as int, b.len() as int).len(),
{
    lemma_pairs_common(a, b, a.len() as int, b.len() as int);
    lemma_pairs_len(a, b, a.len() as int, b.len() as int);
    assert forall|k: int| 0 <= k < other.len() implies #[trigger] other[k].0 < a.len() && other[k].1 < b.len() by {}
    lemma_lcs_len_is_max(a, b, a.len() as int, b.len() as int, other);
}

/// The pairs of matching lines, `(index into old_lines, index into new_lines)`,
/// of a longest common subsequence of the two slices, in increasing order.
/// The rows `0..rows` of a table whose cell `(r, c)` holds the length of a
/// longest common subsequence of the first `r + 1` lines of `a` and the
/// first `c + 1` lines of `b`, for `c < cols`.
pub open spec fn lcs_table_rows(table: Seq<Vec<usize>>, a: Lines, b: Lines, rows: int, cols: int) -> bool {
    &&& table.len() == rows
    &&& forall|r: int| 0 <= r < rows ==> (#[trigger] table[r])@.len() == cols
    &&& forall|r: int, c: int|
        0 <= r < rows && 0 <= c < cols ==> #[trigger] table[r]@[c] == lcs_len(a, b, r + 1, c + 1)
}

/// `lcs_len(a, b, i, j)`, read from a filled table.
fn lcs_cell(table: &Vec<Vec<usize>>, i: usize, j: usize, Ghost(a): Ghost<Lines>, Ghost(b): Ghost<Lines>) -> (res: usize)
    requires
        i <= table@.len(),
        lcs_table_rows(table@, a, b, table@.len() as int, b.len() as int),
        j <= b.len(),
    ensures
        res == lcs_len(a, b, i as int, j as int),
{
    if i == 0 || j == 0 {
        0
    } else {
        table[i - 1][j - 1]
    }
}

/// The pairs of matching lines, `(index into old_lines, index into new_lines)`,
/// of a longest common subsequence of the two slices, in increasing order.
pub fn longest_common_subsequence(old_lines: &[&str], new_lines: &[&str]) -> (result: Vec<(usize, usize)>)
    ensures
        same_pairs(
            result@,
            lcs_pairs(lines_view(old_lines@), lines_view(new_lines@), old_lines@.len() as int, new_lines@.len() as int),
        ),
{
    let ghost a = lines_view(old_lines@);
    let ghost b = lines_view(new_lines@);
    let old_len = old_lines.len();
    let new_len = new_lines.len();

    if old_len == 0 || new_len == 0 {
        let empty: Vec<(usize, usize)> = Vec::new();
        assert(lcs_pairs(a, b, old_len as int, new_len as int).len() == 0);
        return empty;
    }

    // table[r][c] holds the length of a longest common subsequence of the
    // first r + 1 old lines and the first c + 1 new lines
    let mut table: Vec<Vec<usize>> = Vec::new();
    let mut r: usize = 0;
    while r < old_len
        invariant
            r <= old_len,
            old_len == old_lines@.len(),
            new_len == new_lines@.len(),
            a == lines_view(old_lines@),
            b == lines_view(new_lines@),
            lcs_table_rows(table@, a, b, r as int, new_len as int),
        decreases old_len - r,
    {
        let mut row: Vec<usize> = Vec::new();
        let mut c: usize = 0;
        while c < new_len
            invariant
                r < old_len,
                c <= new_len,
                old_len == old_lines@.len(),
                new_len == new_lines@.len(),
                a == lines_view(old_lines@),
                b == lines_view(new_lines@),
                lcs_table_rows(table@, a, b, r as int, new_len as int),
                row@.len() == c,
                forall|cc: int| 0 <= cc < c ==> #[trigger] row@[cc] == lcs_len(a, b, r + 1, cc + 1),
            decreases new_len - c,
        {
            proof {
                lemma_lcs_len_bounds(a, b, r as int, c as int);
            }
            let diag = lcs_cell(&table, r, c, Ghost(a), Ghost(b));
            let up = lcs_cell(&table, r, c + 1, Ghost(a), Ghost(b));
            let left = if c == 0 {
                0
            } else {
                row[c - 1]
            };
            assert(a[r as int] == old_lines@[r as int]@);
            assert(b[c as int] == new_lines@[c as int]@);
            let value = if str_eq(old_lines[r], new_lines[c]) {
                diag + 1
            } else {
                if up >= left {
                    up
                } else {
                    left
                }
            };
            assert(diag == lcs_len(a, b, r as int, c as int));
            assert(up == lcs_len(a, b, r as int, c + 1));
            assert(left == lcs_len(a, b, r + 1, c as int));
            assert(value == lcs_len(a, b, r + 1, c + 1));
            let ghost before = row@;
            row.push(value);
            assert forall|cc: int| 0 <= cc < c + 1 implies #[trigger] row@[cc] == lcs_len(a, b, r + 1, cc + 1) by {
                if cc < c {
                    assert(row@[cc] == before[cc]);
                }
            }
            c += 1;
        }
        proof {
            let t = table@.push(row);
            assert forall|rr: int, cc: int| 0 <= rr < r + 1 && 0 <= cc < new_len implies #[trigger] t[rr]@[cc]
                == lcs_len(a, b, rr + 1, cc + 1) by {
                if rr < r {
                    assert(t[rr] == table@[rr]);
                }
            }
            assert forall|rr: int| 0 <= rr < r + 1 implies (#[trigger] t[rr])@.len() == new_len by {
                if rr < r {
                    assert(t[rr] == table@[rr]);
                }
            }
        }
        table.push(row);
        r += 1;
    }

    // Walk back from (old_len, new_len), filling the result from its end.
    let total = lcs_cell(&table, old_len, new_len, Ghost(a), Ghost(b));
    let mut result: Vec<(usize, usize)> = vec![(0usize, 0usize); total];
    let mut pos: usize = total;
    let mut i: usize = old_len;
    let mut j: usize = new_len;
    proof {
        lemma_pairs_len(a, b, old_len as int, new_len as int);
    }
    let ghost whole = lcs_pairs(a, b, old_len as int, new_len as int);
    while i > 0 && j > 0
        invariant
            i <= old_len,
            j <= new_len,
            old_len == old_lines@.len(),
            new_len == new_lines@.len(),
            a == lines_view(old_lines@),
            b == lines_view(new_lines@),
            lcs_table_rows(table@, a, b, old_len as int, new_len as int),
            result@.len() == total,
            whole.len() == total,
            whole == lcs_pairs(a, b, old_len as int, new_len as int),
            pos <= total,
            lcs_pairs(a, b, i as int, j as int).len() == pos,
            forall|k: int|
                0 <= k < pos ==> #[trigger] whole[k] == lcs_pairs(a, b, i as int, j as int)[k],
            forall|k: int|
                pos <= k < total ==> #[trigger] result@[k].0 as int == whole[k].0 && result@[k].1 as int
                    == whole[k].1,
        decreases i + j,
    {
        proof {
            lemma_pairs_len(a, b, i as int, j as int);
            lemma_pairs_len(a, b, i - 1, j - 1);
            lemma_pairs_len(a, b, i - 1, j as int);
            lemma_pairs_len(a, b, i as int, j - 1);
        }
        if str_eq(old_lines[i - 1], new_lines[j - 1]) {
            assert(a[i - 1] == old_lines@[i - 1]@);
            let ghost inner = lcs_pairs(a, b, i - 1, j - 1);
            assert(lcs_pairs(a, b, i as int, j as int) == inner.push((i - 1, j - 1)));
            pos -= 1;
            result.set(pos, (i - 1, j - 1));
            i -= 1;
            j -= 1;
        } else {
            assert(a[i - 1] != b[j - 1]);
            if lcs_cell(&table, i - 1, j, Ghost(a), Ghost(b)) > lcs_cell(&table, i, j - 1, Ghost(a), Ghost(b)) {
                i -= 1;
            } else {
                j -= 1;
            }
        }
    }
    proof {
        assert(lcs_pairs(a, b, i as int, j as int).len() == 0);
        assert(pos == 0);
        assert forall|k: int| 0 <= k < whole.len() implies #[trigger] result@[k].0 as int == whole[k].0
            && result@[k].1 as int == whole[k].1 by {}
        assert(same_pairs(result@, whole));
    }
    result
}

/// The length of a longest common subsequence does not depend on which
/// text comes first.
pub proof fn law_lcs_len_symmetric(a: Lines, b: Lines, i: int, j: int)
    ensures
        lcs_len(a, b, i, j) == lcs_len(b, a, j, i),
    decreases i + j,
{
    if i > 0 && j > 0 {
        law_lcs_len_symmetric(a, b, i - 1, j - 1);
        law_lcs_len_symmetric(a, b, i - 1, j);
        law_lcs_len_symmetric(a, b, i, j - 1);
    }
}

/// Lines past the prefixes looked at do not matter.
proof fn lemma_lcs_len_prefix(a: Lines, x: Seq<char>, b: Lines, i: int, j: int)
    requires
        i <= a.len(),
    ensures
        lcs_len(a.push(x), b, i, j) == lcs_len(a, b, i, j),
    decreases i + j,
{
    if i > 0 && j > 0 {
        assert(a.push(x)[i - 1] == a[i - 1]);
        lemma_lcs_len_prefix(a, x, b, i - 1, j - 1);
        lemma_lcs_len_prefix(a, x, b, i - 1, j);
        lemma_lcs_len_prefix(a, x, b, i, j - 1);
    }
}

/// Swapping the two texts keeps the length of what the walk-back finds,
/// though not necessarily its pairs.
pub proof fn law_lcs_pairs_len_symmetric(a: Lines, b: Lines)
    ensures
        lcs_pairs(a, b, a.len() as int, b.len() as int).len() == lcs_pairs(b, a, b.len() as int, a.len() as int).len(),
{
    lemma_pairs_len(a, b, a.len() as int, b.len() as int);
    lemma_pairs_len(b, a, b.len() as int, a.len() as int);
    law_lcs_len_symmetric(a, b, a.len() as int, b.len() as int);
}

/// Appending a line to either text never shortens the longest common
/// subsequence, and lengthens it by at most one.
pub proof fn law_lcs_append_line(a: Lines, b: Lines, x: Seq<char>)
    ensures
        lcs_pairs(a, b, a.len() as int, b.len() as int).len() <= lcs_pairs(a.push(x), b, a.len() as int + 1, b.len() as int).len()
            <= lcs_pairs(a, b, a.len() as int, b.len() as int).len() + 1,
        lcs_pairs(a, b, a.len() as int, b.len() as int).len() <= lcs_pairs(a, b.push(x), a.len() as int, b.len() as int + 1).len()
            <= lcs_pairs(a, b, a.len() as int, b.len() as int).len() + 1,
{
    let n = a.len() as int;
    let m = b.len() as int;
    lemma_pairs_len(a, b, n, m);
    lemma_pairs_len(a.push(x), b, n + 1, m);
    lemma_pairs_len(a, b.push(x), n, m + 1);
    lemma_lcs_monotone(a.push(x), b, n, m);
    lemma_lcs_len_prefix(a, x, b, n, m);
    // the other side, through symmetry
    lemma_lcs_monotone(b.push(x), a, m, n);
    lemma_lcs_len_prefix(b, x, a, m, n);
    law_lcs_len_symmetric(a, b.push(x), n, m + 1);
    law_lcs_len_symmetric(a, b, n, m);
}

} // verus!
