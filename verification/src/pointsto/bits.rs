//! Counting the cells of a matrix of flags that are not set. The count is
//! what is left for a propagation that only ever sets flags.

use vstd::prelude::*;

verus! {

/// The number of flags of `row` that are not set.
pub open spec fn unset_in_row(row: Seq<bool>) -> nat
    decreases row.len(),
{
    if row.len() == 0 {
        0
    } else {
        unset_in_row(row.drop_last()) + if row.last() {
            0nat
        } else {
            1nat
        }
    }
}

/// The number of flags of `matrix` that are not set.
pub open spec fn unset_in_matrix(matrix: Seq<Seq<bool>>) -> nat
    decreases matrix.len(),
{
    if matrix.len() == 0 {
        0
    } else {
        unset_in_matrix(matrix.drop_last()) + unset_in_row(matrix.last())
    }
}

/// Every flag set in `a` is set in `b`.
pub open spec fn row_below(a: Seq<bool>, b: Seq<bool>) -> bool {
    a.len() == b.len() && forall|j: int| 0 <= j < a.len() ==> (a[j] ==> b[j])
}

/// A row with more flags set has fewer that are not.
pub proof fn lemma_row_monotone(a: Seq<bool>, b: Seq<bool>)
    requires
        row_below(a, b),
    ensures
        unset_in_row(b) <= unset_in_row(a),
    decreases a.len(),
{
    if a.len() > 0 {
        lemma_row_monotone(a.drop_last(), b.drop_last());
    }
}

/// Setting a flag that was not set takes one off the count.
pub proof fn lemma_row_set(row: Seq<bool>, j: int)
    requires
        0 <= j < row.len(),
        !row[j],
    ensures
        unset_in_row(row.update(j, true)) + 1 == unset_in_row(row),
    decreases row.len(),
{
    let after = row.update(j, true);
    if j == row.len() - 1 {
        assert(after.drop_last() =~= row.drop_last());
    } else {
        assert(after.drop_last() =~= row.drop_last().update(j, true));
        lemma_row_set(row.drop_last(), j);
    }
}

/// A row in which at least one more flag is set has strictly fewer that
/// are not.
pub proof fn lemma_row_strictly_monotone(a: Seq<bool>, b: Seq<bool>, j: int)
    requires
        row_below(a, b),
        0 <= j < a.len(),
        !a[j],
        b[j],
    ensures
        unset_in_row(b) < unset_in_row(a),
{
    lemma_row_set(a, j);
    lemma_row_monotone(a.update(j, true), b);
}

/// Replacing one row changes the count by the difference of the rows.
pub proof fn lemma_matrix_replace_row(matrix: Seq<Seq<bool>>, i: int, row: Seq<bool>)
    requires
        0 <= i < matrix.len(),
    ensures
        unset_in_matrix(matrix.update(i, row)) + unset_in_row(matrix[i]) == unset_in_matrix(
            matrix,
        ) + unset_in_row(row),
    decreases matrix.len(),
{
    let after = matrix.update(i, row);
    if i == matrix.len() - 1 {
        assert(after.drop_last() =~= matrix.drop_last());
    } else {
        assert(after.drop_last() =~= matrix.drop_last().update(i, row));
        lemma_matrix_replace_row(matrix.drop_last(), i, row);
    }
}

} // verus!
