//! The rows of the sortable table and their stable sort by column.

use vstd::prelude::*;
use crate::text::{decimal, label};
use crate::order::{Comparison, int_order, lex_order, lemma_lex_order_flip, lemma_lex_order_trans, lemma_lex_order_equal, compare_text, compare_i32};

verus! {

/// One row of the table: a name, a value, and a fill ratio. The ratio is held
/// as a whole number of eighths (the ratio is `ratio_eighths / 8`): every ratio
/// the table ever holds is a multiple of one eighth, and two ratios order as
/// their numbers of eighths do.
pub struct TableRow {
    pub name: String,
    pub value: i32,
    pub ratio_eighths: i32,
}

/// How two rows compare on the table's column `column`: the name for column 0,
/// the value for column 1, the ratio for every other column.
pub open spec fn key_order(a: TableRow, b: TableRow, column: usize) -> Comparison {
    if column == 0 {
        lex_order(a.name@, b.name@)
    } else if column == 1 {
        int_order(a.value as int, b.value as int)
    } else {
        int_order(a.ratio_eighths as int, b.ratio_eighths as int)
    }
}

/// The order the table is sorted in: the column's order, reversed when the
/// sort is descending.
#[verifier::opaque]
pub open spec fn row_order(a: TableRow, b: TableRow, column: usize, ascending: bool) -> Comparison {
    if ascending {
        key_order(a, b, column)
    } else {
        key_order(a, b, column).flip()
    }
}

/// Swapping two rows flips how they compare.
pub proof fn lemma_row_order_flip(a: TableRow, b: TableRow, column: usize, ascending: bool)
    ensures
        row_order(b, a, column, ascending) == row_order(a, b, column, ascending).flip(),
{
    reveal(row_order);
    lemma_lex_order_flip(a.name@, b.name@);
}

/// Every row compares equal to itself.
pub proof fn lemma_row_order_refl(a: TableRow, column: usize, ascending: bool)
    ensures
        row_order(a, a, column, ascending) == Comparison::Equal,
{
    reveal(row_order);
    lemma_lex_order_equal(a.name@, a.name@);
}

/// The table's order is transitive, and strictly so when either step is strict.
pub proof fn lemma_row_order_trans(
    a: TableRow,
    b: TableRow,
    c: TableRow,
    column: usize,
    ascending: bool,
)
    requires
        row_order(a, b, column, ascending) != Comparison::Greater,
        row_order(b, c, column, ascending) != Comparison::Greater,
    ensures
        row_order(a, c, column, ascending) != Comparison::Greater,
        (row_order(a, b, column, ascending) == Comparison::Less || row_order(b, c, column, ascending)
            == Comparison::Less) ==> row_order(a, c, column, ascending) == Comparison::Less,
{
    reveal(row_order);
    if column == 0 {
        if ascending {
            lemma_lex_order_trans(a.name@, b.name@, c.name@);
        } else {
            lemma_lex_order_flip(a.name@, b.name@);
            lemma_lex_order_flip(b.name@, c.name@);
            lemma_lex_order_flip(a.name@, c.name@);
            lemma_lex_order_trans(c.name@, b.name@, a.name@);
        }
    }
}

/// On the value column, rows order by their values: ascending puts the smaller
/// value first, descending the larger, and equal values compare equal.
pub proof fn lemma_row_order_by_value(a: TableRow, b: TableRow, ascending: bool)
    ensures
        row_order(a, b, 1, ascending) == Comparison::Equal <==> a.value == b.value,
        row_order(a, b, 1, ascending) == Comparison::Less <==> (if ascending {
            a.value < b.value
        } else {
            a.value > b.value
        }),
        row_order(a, b, 1, ascending) == Comparison::Greater <==> (if ascending {
            a.value > b.value
        } else {
            a.value < b.value
        }),
{
    reveal(row_order);
}

/// On every column past the value column, rows order by their ratios:
/// ascending puts the smaller ratio first, descending the larger, and equal
/// ratios compare equal.
pub proof fn lemma_row_order_by_ratio(a: TableRow, b: TableRow, column: usize, ascending: bool)
    requires
        column >= 2,
    ensures
        row_order(a, b, column, ascending) == Comparison::Equal <==> a.ratio_eighths
            == b.ratio_eighths,
        row_order(a, b, column, ascending) == Comparison::Less <==> (if ascending {
            a.ratio_eighths < b.ratio_eighths
        } else {
            a.ratio_eighths > b.ratio_eighths
        }),
        row_order(a, b, column, ascending) == Comparison::Greater <==> (if ascending {
            a.ratio_eighths > b.ratio_eighths
        } else {
            a.ratio_eighths < b.ratio_eighths
        }),
{
    reveal(row_order);
}

/// On the name column, rows depend on their names alone: rows with the same
/// name compare equal in either direction (whatever their values and ratios),
/// and otherwise the row whose name comes first in text order comes first
/// when ascending, last when descending.
pub proof fn lemma_row_order_by_name(a: TableRow, b: TableRow, ascending: bool)
    ensures
        row_order(a, b, 0, ascending) == Comparison::Equal <==> a.name@ == b.name@,
        row_order(a, b, 0, ascending) == Comparison::Less <==> (if ascending {
            lex_order(a.name@, b.name@) == Comparison::Less
        } else {
            lex_order(b.name@, a.name@) == Comparison::Less
        }),
        row_order(a, b, 0, ascending) == Comparison::Greater <==> (if ascending {
            lex_order(b.name@, a.name@) == Comparison::Less
        } else {
            lex_order(a.name@, b.name@) == Comparison::Less
        }),
{
    reveal(row_order);
    lemma_lex_order_equal(a.name@, b.name@);
    lemma_lex_order_flip(a.name@, b.name@);
}

/// Compares two rows as the table's sort does: by the column, reversed when
/// the sort is descending.
pub fn compare_rows(a: &TableRow, b: &TableRow, column: usize, ascending: bool) -> (r: Comparison)
    ensures
        r == row_order(*a, *b, column, ascending),
{
    reveal(row_order);
    let ord = if column == 0 {
        compare_text(a.name.as_str(), b.name.as_str())
    } else if column == 1 {
        compare_i32(a.value, b.value)
    } else {
        compare_i32(a.ratio_eighths, b.ratio_eighths)
    };
    if ascending {
        ord
    } else {
        ord.reverse()
    }
}

/// No row of `s` comes after a later row in the table's order.
pub open spec fn sorted_by(s: Seq<TableRow>, column: usize, ascending: bool) -> bool {
    forall|i: int, j: int|
        0 <= i < j < s.len() ==> #[trigger] row_order(s[i], s[j], column, ascending)
            != Comparison::Greater
}

/// `out` is `inp` rearranged by `perm` (row `k` of `out` is row `perm[k]` of
/// `inp`, and no row of `inp` is used twice), and rows that compare equal keep
/// the order they had in `inp`.
pub open spec fn is_stable_permutation(
    out: Seq<TableRow>,
    inp: Seq<TableRow>,
    perm: Seq<int>,
    column: usize,
    ascending: bool,
) -> bool {
    &&& out.len() == inp.len()
    &&& perm.len() == inp.len()
    &&& forall|k: int|
        0 <= k < out.len() ==> 0 <= #[trigger] perm[k] < inp.len() && out[k] == inp[perm[k]]
    &&& forall|i: int, j: int| 0 <= i < j < out.len() ==> #[trigger] perm[i] != #[trigger] perm[j]
    &&& forall|i: int, j: int|
        0 <= i < j < out.len() && #[trigger] row_order(out[i], out[j], column, ascending)
            == Comparison::Equal ==> perm[i] < perm[j]
}

/// `out` is what a stable sort of `inp` by the table's order gives: sorted, and
/// a rearrangement of `inp` in which equal rows keep their order.
pub open spec fn stable_sort_of(
    out: Seq<TableRow>,
    inp: Seq<TableRow>,
    column: usize,
    ascending: bool,
) -> bool {
    &&& sorted_by(out, column, ascending)
    &&& exists|perm: Seq<int>| #[trigger] is_stable_permutation(out, inp, perm, column, ascending)
}

/// The place where a stable insertion puts `x` into the sorted `out`: after
/// every row that does not come after `x`, before every row that does.
fn insertion_point(out: &Vec<TableRow>, x: &TableRow, column: usize, ascending: bool) -> (pos: usize)
    requires
        sorted_by(out@, column, ascending),
    ensures
        pos <= out.len(),
        forall|k: int|
            0 <= k < pos ==> #[trigger] row_order(out@[k], *x, column, ascending)
                != Comparison::Greater,
        forall|k: int|
            pos <= k < out.len() ==> #[trigger] row_order(out@[k], *x, column, ascending)
                == Comparison::Greater,
{
    let len = out.len();
    let mut j: usize = 0;
    while j < len && compare_rows(&out[j], x, column, ascending) != Comparison::Greater
        invariant
            len == out.len(),
            j <= len,
            forall|k: int|
                0 <= k < j ==> #[trigger] row_order(out@[k], *x, column, ascending)
                    != Comparison::Greater,
        decreases len - j,
    {
        j = j + 1;
    }
    proof {
        if j < len {
            assert forall|k: int| j <= k < len implies #[trigger] row_order(
                out@[k],
                *x,
                column,
                ascending,
            ) == Comparison::Greater by {
                if k > j {
                    assert(row_order(out@[j as int], out@[k], column, ascending)
                        != Comparison::Greater);
                    lemma_row_order_flip(out@[j as int], *x, column, ascending);
                    lemma_row_order_trans(*x, out@[j as int], out@[k], column, ascending);
                    lemma_row_order_flip(out@[k], *x, column, ascending);
                }
            }
        }
    }
    j
}

/// Inserting `x` where `insertion_point` puts it keeps `o` sorted.
proof fn lemma_insert_keeps_sorted(
    o: Seq<TableRow>,
    x: TableRow,
    pos: int,
    column: usize,
    ascending: bool,
)
    requires
        sorted_by(o, column, ascending),
        0 <= pos <= o.len(),
        forall|k: int|
            0 <= k < pos ==> #[trigger] row_order(o[k], x, column, ascending)
                != Comparison::Greater,
        forall|k: int|
            pos <= k < o.len() ==> #[trigger] row_order(o[k], x, column, ascending)
                == Comparison::Greater,
    ensures
        sorted_by(o.insert(pos, x), column, ascending),
{
    let o2 = o.insert(pos, x);
    o.insert_ensures(pos, x);
    assert forall|i: int, j: int| 0 <= i < j < o2.len() implies #[trigger] row_order(
        o2[i],
        o2[j],
        column,
        ascending,
    ) != Comparison::Greater by {
        if j < pos {
            assert(row_order(o[i], o[j], column, ascending) != Comparison::Greater);
        } else if j == pos {
            assert(row_order(o[i], x, column, ascending) != Comparison::Greater);
        } else if i < pos {
            assert(o2[j] == o[j - 1]);
            assert(row_order(o[i], o[j - 1], column, ascending) != Comparison::Greater);
        } else if i == pos {
            assert(o2[j] == o[j - 1]);
            assert(row_order(o[j - 1], x, column, ascending) == Comparison::Greater);
            lemma_row_order_flip(o[j - 1], x, column, ascending);
        } else {
            assert(o2[i] == o[i - 1]);
            assert(o2[j] == o[j - 1]);
            assert(row_order(o[i - 1], o[j - 1], column, ascending) != Comparison::Greater);
        }
    }
}

/// Inserting `x` (the next row of the input) where `insertion_point` puts it
/// keeps `o` a stable rearrangement of the rows seen so far.
proof fn lemma_insert_keeps_stable(
    o: Seq<TableRow>,
    x: TableRow,
    pos: int,
    inp: Seq<TableRow>,
    perm: Seq<int>,
    column: usize,
    ascending: bool,
)
    requires
        is_stable_permutation(o, inp, perm, column, ascending),
        0 <= pos <= o.len(),
        forall|k: int|
            pos <= k < o.len() ==> #[trigger] row_order(o[k], x, column, ascending)
                == Comparison::Greater,
    ensures
        is_stable_permutation(
            o.insert(pos, x),
            inp.push(x),
            perm.insert(pos, inp.len() as int),
            column,
            ascending,
        ),
{
    let n = inp.len() as int;
    let o2 = o.insert(pos, x);
    let p2 = perm.insert(pos, n);
    let inp2 = inp.push(x);
    o.insert_ensures(pos, x);
    perm.insert_ensures(pos, n);
    lemma_insert_indices(o, x, pos, inp, perm, column, ascending);
    assert forall|i: int, j: int|
        0 <= i < j < o2.len() && #[trigger] row_order(o2[i], o2[j], column, ascending)
            == Comparison::Equal implies p2[i] < p2[j] by {
        if j < pos {
            assert(row_order(o[i], o[j], column, ascending) == Comparison::Equal);
        } else if j == pos {
            assert(0 <= perm[i] < n);
        } else if i < pos {
            assert(o2[j] == o[j - 1]);
            assert(p2[j] == perm[j - 1]);
            assert(row_order(o[i], o[j - 1], column, ascending) == Comparison::Equal);
        } else if i == pos {
            assert(o2[j] == o[j - 1]);
            assert(row_order(o[j - 1], x, column, ascending) == Comparison::Greater);
            lemma_row_order_flip(o[j - 1], x, column, ascending);
        } else {
            assert(o2[i] == o[i - 1]);
            assert(o2[j] == o[j - 1]);
            assert(p2[i] == perm[i - 1]);
            assert(p2[j] == perm[j - 1]);
            assert(row_order(o[i - 1], o[j - 1], column, ascending) == Comparison::Equal);
        }
    }
}

/// After the insertion, every index still names its row and none is used twice.
proof fn lemma_insert_indices(
    o: Seq<TableRow>,
    x: TableRow,
    pos: int,
    inp: Seq<TableRow>,
    perm: Seq<int>,
    column: usize,
    ascending: bool,
)
    requires
        is_stable_permutation(o, inp, perm, column, ascending),
        0 <= pos <= o.len(),
    ensures
        forall|k: int|
            0 <= k < o.len() + 1 ==> 0 <= #[trigger] perm.insert(pos, inp.len() as int)[k]
                < inp.len() + 1 && o.insert(pos, x)[k] == inp.push(x)[perm.insert(
                pos,
                inp.len() as int,
            )[k]],
        forall|i: int, j: int|
            0 <= i < j < o.len() + 1 ==> #[trigger] perm.insert(pos, inp.len() as int)[i]
                != #[trigger] perm.insert(pos, inp.len() as int)[j],
{
    let n = inp.len() as int;
    let o2 = o.insert(pos, x);
    let p2 = perm.insert(pos, n);
    let inp2 = inp.push(x);
    o.insert_ensures(pos, x);
    perm.insert_ensures(pos, n);
    assert forall|k: int| 0 <= k < o2.len() implies 0 <= #[trigger] p2[k] < inp2.len() && o2[k]
        == inp2[p2[k]] by {
        if k < pos {
            assert(0 <= perm[k] < n && o[k] == inp[perm[k]]);
        } else if k > pos {
            assert(p2[k] == perm[k - 1]);
            assert(0 <= perm[k - 1] < n && o[k - 1] == inp[perm[k - 1]]);
        }
    }
    assert forall|i: int, j: int| 0 <= i < j < o2.len() implies #[trigger] p2[i]
        != #[trigger] p2[j] by {
        if j < pos {
            assert(perm[i] != perm[j]);
        } else if j == pos {
            assert(0 <= perm[i] < n);
        } else if i < pos {
            assert(p2[j] == perm[j - 1]);
            assert(perm[i] != perm[j - 1]);
        } else if i == pos {
            assert(p2[j] == perm[j - 1]);
            assert(0 <= perm[j - 1] < n);
        } else {
            assert(p2[i] == perm[i - 1]);
            assert(p2[j] == perm[j - 1]);
            assert(perm[i - 1] != perm[j - 1]);
        }
    }
}

/// Sorts the rows stably by the table's column `column`, ascending or
/// descending, as `sort_by` does with the column's order (reversed when
/// descending): rows that compare equal keep their order.
pub fn sort_rows(rows: &mut Vec<TableRow>, column: usize, ascending: bool)
    ensures
        stable_sort_of(final(rows)@, old(rows)@, column, ascending),
{
    let ghost inp = rows@;
    let mut rest: Vec<TableRow> = Vec::new();
    std::mem::swap(rows, &mut rest);
    let mut out: Vec<TableRow> = Vec::new();
    let ghost mut perm: Seq<int> = Seq::empty();
    let ghost mut done: int = 0;
    assert(inp.skip(0) =~= inp);
    assert(inp.take(0) =~= Seq::<TableRow>::empty());
    while rest.len() > 0
        invariant
            0 <= done <= inp.len(),
            rest@ == inp.skip(done),
            sorted_by(out@, column, ascending),
            is_stable_permutation(out@, inp.take(done), perm, column, ascending),
        decreases rest.len(),
    {
        let x = rest.remove(0);
        let pos = insertion_point(&out, &x, column, ascending);
        proof {
            assert(x == inp[done]);
            assert(inp.take(done + 1) =~= inp.take(done).push(x));
            assert(inp.skip(done).remove(0) =~= inp.skip(done + 1));
            lemma_insert_keeps_sorted(out@, x, pos as int, column, ascending);
            lemma_insert_keeps_stable(out@, x, pos as int, inp.take(done), perm, column, ascending);
            perm = perm.insert(pos as int, done);
        }
        out.insert(pos, x);
        proof {
            done = done + 1;
        }
    }
    proof {
        assert(inp.take(done) =~= inp);
    }
    *rows = out;
}

/// A strictly increasing sequence of `n` indices below `n` is `0, 1, ..., n - 1`.
proof fn lemma_increasing_is_identity(perm: Seq<int>, n: int)
    requires
        perm.len() == n,
        forall|k: int| 0 <= k < n ==> 0 <= #[trigger] perm[k] < n,
        forall|i: int, j: int| 0 <= i < j < n ==> #[trigger] perm[i] < #[trigger] perm[j],
    ensures
        forall|k: int| 0 <= k < n ==> #[trigger] perm[k] == k,
{
    assert forall|k: int| 0 <= k < n implies #[trigger] perm[k] == k by {
        lemma_increasing_lower(perm, n, k);
        lemma_increasing_upper(perm, n, k);
    }
}

proof fn lemma_increasing_lower(perm: Seq<int>, n: int, k: int)
    requires
        perm.len() == n,
        0 <= k < n,
        forall|k: int| 0 <= k < n ==> 0 <= #[trigger] perm[k] < n,
        forall|i: int, j: int| 0 <= i < j < n ==> #[trigger] perm[i] < #[trigger] perm[j],
    ensures
        perm[k] >= k,
    decreases k,
{
    if k > 0 {
        lemma_increasing_lower(perm, n, k - 1);
        assert(perm[k - 1] < perm[k]);
    }
}

proof fn lemma_increasing_upper(perm: Seq<int>, n: int, k: int)
    requires
        perm.len() == n,
        0 <= k < n,
        forall|k: int| 0 <= k < n ==> 0 <= #[trigger] perm[k] < n,
        forall|i: int, j: int| 0 <= i < j < n ==> #[trigger] perm[i] < #[trigger] perm[j],
    ensures
        perm[k] <= k,
    decreases n - k,
{
    if k < n - 1 {
        lemma_increasing_upper(perm, n, k + 1);
        assert(perm[k] < perm[k + 1]);
    }
}

/// `n` distinct indices below `n` take every value below `n`.
proof fn lemma_perm_onto(perm: Seq<int>, n: int, v: int)
    requires
        perm.len() == n,
        0 <= v < n,
        forall|k: int| 0 <= k < n ==> 0 <= #[trigger] perm[k] < n,
        forall|i: int, j: int| 0 <= i < j < n ==> #[trigger] perm[i] != #[trigger] perm[j],
    ensures
        exists|k: int| 0 <= k < n && #[trigger] perm[k] == v,
{
    broadcast use vstd::seq_lib::seq_to_set_is_finite, vstd::seq_lib::lemma_seq_contains;

    assert(perm.no_duplicates()) by {
        assert forall|i: int, j: int|
            0 <= i < perm.len() && 0 <= j < perm.len() && i != j implies perm[i] != perm[j] by {
            if i < j {
                assert(perm[i] != perm[j]);
            } else {
                assert(perm[j] != perm[i]);
            }
        }
    }
    perm.unique_seq_to_set();
    let range = vstd::set_lib::set_int_range(0, n);
    vstd::set_lib::lemma_int_range(0, n);
    assert(perm.to_set().subset_of(range)) by {
        assert forall|x: int| perm.to_set().contains(x) implies range.contains(x) by {
            assert(perm.contains(x));
            let k = choose|k: int| 0 <= k < perm.len() && perm[k] == x;
            assert(0 <= perm[k] < n);
        }
    }
    vstd::set_lib::lemma_subset_equality(perm.to_set(), range);
    assert(range.contains(v));
    assert(perm.to_set().contains(v));
    assert(perm.contains(v));
}

/// Sorting rows that are already in order leaves them as they are.
pub proof fn lemma_sorted_rows_unchanged(
    out: Seq<TableRow>,
    inp: Seq<TableRow>,
    column: usize,
    ascending: bool,
)
    requires
        sorted_by(inp, column, ascending),
        stable_sort_of(out, inp, column, ascending),
    ensures
        out == inp,
{
    let perm = choose|perm: Seq<int>| #[trigger]
        is_stable_permutation(out, inp, perm, column, ascending);
    let n = inp.len() as int;
    assert forall|i: int, j: int| 0 <= i < j < n implies #[trigger] perm[i] < #[trigger] perm[j] by {
        assert(perm[i] != perm[j]);
        assert(0 <= perm[i] < n && out[i] == inp[perm[i]]);
        assert(0 <= perm[j] < n && out[j] == inp[perm[j]]);
        if perm[i] > perm[j] {
            assert(row_order(inp[perm[j]], inp[perm[i]], column, ascending)
                != Comparison::Greater);
            assert(row_order(out[i], out[j], column, ascending) != Comparison::Greater);
            lemma_row_order_flip(out[i], out[j], column, ascending);
            assert(row_order(out[i], out[j], column, ascending) == Comparison::Equal);
        }
    }
    lemma_increasing_is_identity(perm, n);
    assert forall|k: int| 0 <= k < n implies out[k] == inp[k] by {
        assert(perm[k] == k);
        assert(out[k] == inp[perm[k]]);
    }
    assert(out =~= inp);
}

/// A stable sort has one outcome: any two stable sorts of the same rows by the
/// same order are the same rows in the same order.
pub proof fn lemma_stable_sort_unique(
    a: Seq<TableRow>,
    b: Seq<TableRow>,
    inp: Seq<TableRow>,
    column: usize,
    ascending: bool,
)
    requires
        stable_sort_of(a, inp, column, ascending),
        stable_sort_of(b, inp, column, ascending),
    ensures
        a == b,
{
    let pa = choose|perm: Seq<int>| #[trigger]
        is_stable_permutation(a, inp, perm, column, ascending);
    let pb = choose|perm: Seq<int>| #[trigger]
        is_stable_permutation(b, inp, perm, column, ascending);
    let n = inp.len() as int;
    let r = Seq::new(n as nat, |k: int| choose|m: int| 0 <= m < n && #[trigger] pa[m] == pb[k]);
    assert forall|k: int| 0 <= k < n implies 0 <= #[trigger] r[k] < n && pa[r[k]] == pb[k] by {
        assert(0 <= pb[k] < n);
        lemma_perm_onto(pa, n, pb[k]);
    }
    assert forall|k: int| 0 <= k < b.len() implies 0 <= #[trigger] r[k] < a.len() && b[k]
        == a[r[k]] by {
        assert(0 <= r[k] < n && pa[r[k]] == pb[k]);
        assert(b[k] == inp[pb[k]]);
        assert(a[r[k]] == inp[pa[r[k]]]);
    }
    assert forall|i: int, j: int| 0 <= i < j < b.len() implies #[trigger] r[i]
        != #[trigger] r[j] by {
        assert(pa[r[i]] == pb[i]);
        assert(pa[r[j]] == pb[j]);
        assert(pb[i] != pb[j]);
    }
    assert forall|i: int, j: int|
        0 <= i < j < b.len() && #[trigger] row_order(b[i], b[j], column, ascending)
            == Comparison::Equal implies r[i] < r[j] by {
        assert(pb[i] < pb[j]);
        assert(0 <= r[i] < n && pa[r[i]] == pb[i] && b[i] == a[r[i]]);
        assert(0 <= r[j] < n && pa[r[j]] == pb[j] && b[j] == a[r[j]]);
        assert(r[i] != r[j]);
        if r[i] > r[j] {
            lemma_row_order_flip(b[i], b[j], column, ascending);
            assert(row_order(a[r[j]], a[r[i]], column, ascending) == Comparison::Equal);
            assert(pa[r[j]] < pa[r[i]]);
        }
    }
    assert(is_stable_permutation(b, a, r, column, ascending));
    lemma_sorted_rows_unchanged(b, a, column, ascending);
}

/// Sorting twice by the same column and direction gives what sorting once gave.
pub proof fn lemma_sort_idempotent(
    once: Seq<TableRow>,
    twice: Seq<TableRow>,
    inp: Seq<TableRow>,
    column: usize,
    ascending: bool,
)
    requires
        stable_sort_of(once, inp, column, ascending),
        stable_sort_of(twice, once, column, ascending),
    ensures
        twice == once,
{
    lemma_sorted_rows_unchanged(twice, once, column, ascending);
}

/// Row `k` of the table as it starts: named `row k`, holding the value `7k`
/// and the ratio `k/8`.
pub open spec fn is_initial_row(r: TableRow, k: int) -> bool {
    &&& r.name@ == "row "@ + decimal(k as nat)
    &&& r.value == 7 * k
    &&& r.ratio_eighths == k
}

/// The number of rows the table starts with.
pub const INITIAL_ROW_COUNT: usize = 8;

/// The rows the table starts with: rows `0` to `7`, each as `is_initial_row`
/// describes it.
pub open spec fn are_initial_rows(rows: Seq<TableRow>) -> bool {
    &&& rows.len() == INITIAL_ROW_COUNT
    &&& forall|k: int| 0 <= k < rows.len() ==> #[trigger] is_initial_row(rows[k], k)
}

/// Builds the rows the table starts with.
pub fn initial_rows() -> (rows: Vec<TableRow>)
    ensures
        are_initial_rows(rows@),
{
    let mut rows: Vec<TableRow> = Vec::new();
    let mut i: i32 = 0;
    while i < 8
        invariant
            0 <= i <= 8,
            rows.len() == i,
            forall|k: int| 0 <= k < rows.len() ==> #[trigger] is_initial_row(rows@[k], k),
        decreases 8 - i,
    {
        let row = TableRow { name: label("row ", i as u64), value: i * 7, ratio_eighths: i };
        rows.push(row);
        i = i + 1;
    }
    rows
}

/// A sort by name keeps rows with equal names in their input order: the
/// sorted rows are the input rows, each used once, and of two sorted rows with
/// the same name the earlier one was earlier in the input.
pub proof fn lemma_sort_by_name_keeps_equal_names_in_order(
    out: Seq<TableRow>,
    inp: Seq<TableRow>,
    ascending: bool,
)
    requires
        stable_sort_of(out, inp, 0, ascending),
    ensures
        out.len() == inp.len(),
        exists|perm: Seq<int>|
            {
                &&& perm.len() == out.len()
                &&& forall|k: int|
                    0 <= k < out.len() ==> 0 <= #[trigger] perm[k] < inp.len() && out[k]
                        == inp[perm[k]]
                &&& forall|i: int, j: int|
                    0 <= i < j < out.len() ==> #[trigger] perm[i] != #[trigger] perm[j]
                &&& forall|i: int, j: int|
                    0 <= i < j < out.len() && #[trigger] out[i].name@ == #[trigger] out[j].name@
                        ==> perm[i] < perm[j]
            },
{
    let perm = choose|perm: Seq<int>| #[trigger]
        is_stable_permutation(out, inp, perm, 0, ascending);
    assert forall|i: int, j: int|
        0 <= i < j < out.len() && #[trigger] out[i].name@ == #[trigger] out[j].name@ implies perm[i]
        < perm[j] by {
        lemma_row_order_by_name(out[i], out[j], ascending);
        assert(row_order(out[i], out[j], 0, ascending) == Comparison::Equal);
    }
}

/// A sort by name leaves the names in text order: ascending, no name comes
/// before a name that precedes it; descending, no name comes before one that
/// follows it.
pub proof fn lemma_sort_by_name_orders_names(
    out: Seq<TableRow>,
    inp: Seq<TableRow>,
    ascending: bool,
)
    requires
        stable_sort_of(out, inp, 0, ascending),
    ensures
        forall|i: int, j: int|
            0 <= i < j < out.len() ==> (if ascending {
                lex_order(#[trigger] out[j].name@, #[trigger] out[i].name@) != Comparison::Less
            } else {
                lex_order(out[i].name@, out[j].name@) != Comparison::Less
            }),
{
    assert forall|i: int, j: int| 0 <= i < j < out.len() implies (if ascending {
        lex_order(#[trigger] out[j].name@, #[trigger] out[i].name@) != Comparison::Less
    } else {
        lex_order(out[i].name@, out[j].name@) != Comparison::Less
    }) by {
        assert(row_order(out[i], out[j], 0, ascending) != Comparison::Greater);
        lemma_row_order_by_name(out[i], out[j], ascending);
    }
}

/// A sort by value leaves the values in order: ascending, never a larger value
/// before a smaller one; descending, never a smaller before a larger.
pub proof fn lemma_sort_by_value_orders_values(
    out: Seq<TableRow>,
    inp: Seq<TableRow>,
    ascending: bool,
)
    requires
        stable_sort_of(out, inp, 1, ascending),
    ensures
        forall|i: int, j: int|
            0 <= i < j < out.len() ==> (if ascending {
                #[trigger] out[i].value <= #[trigger] out[j].value
            } else {
                out[i].value >= out[j].value
            }),
{
    assert forall|i: int, j: int| 0 <= i < j < out.len() implies (if ascending {
        #[trigger] out[i].value <= #[trigger] out[j].value
    } else {
        out[i].value >= out[j].value
    }) by {
        assert(row_order(out[i], out[j], 1, ascending) != Comparison::Greater);
        lemma_row_order_by_value(out[i], out[j], ascending);
    }
}

/// A sort by ratio (any column past the value column) leaves the ratios in
/// order: ascending, never a larger ratio before a smaller one; descending,
/// never a smaller before a larger.
pub proof fn lemma_sort_by_ratio_orders_ratios(
    out: Seq<TableRow>,
    inp: Seq<TableRow>,
    column: usize,
    ascending: bool,
)
    requires
        column >= 2,
        stable_sort_of(out, inp, column, ascending),
    ensures
        forall|i: int, j: int|
            0 <= i < j < out.len() ==> (if ascending {
                #[trigger] out[i].ratio_eighths <= #[trigger] out[j].ratio_eighths
            } else {
                out[i].ratio_eighths >= out[j].ratio_eighths
            }),
{
    assert forall|i: int, j: int| 0 <= i < j < out.len() implies (if ascending {
        #[trigger] out[i].ratio_eighths <= #[trigger] out[j].ratio_eighths
    } else {
        out[i].ratio_eighths >= out[j].ratio_eighths
    }) by {
        assert(row_order(out[i], out[j], column, ascending) != Comparison::Greater);
        lemma_row_order_by_ratio(out[i], out[j], column, ascending);
    }
}

} // verus!
