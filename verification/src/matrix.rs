use vstd::prelude::*;

use crate::error::AlgebraError;
use crate::scalar::Scalar;
use crate::utils::dot_spec;
use crate::utils::norm_spec;
use crate::utils::normalize_spec;
use crate::utils::normalize_vec;
use crate::utils::dot_prod_vecs;

verus! {

/// A dense rectangular matrix over a numeric element type.
///
/// The elements live in one row-major buffer; `rows_num` and `cols_num`
/// record the shape.  The abstraction of a matrix is its sequence of rows
/// (`self@`), a `Seq<Seq<T>>`, and every contract speaks of that view.
#[derive(Debug)]
pub struct Matrix<T> {
    /// Row-major element storage: the entry in row `i`, column `j` stands at
    /// `i * cols_num + j`.
    pub elements: Vec<T>,
    pub rows_num: usize,
    pub cols_num: usize,
}

impl<T> View for Matrix<T> {
    type V = Seq<Seq<T>>;

    open spec fn view(&self) -> Seq<Seq<T>> {
        Seq::new(
            self.rows_num as nat,
            |i: int| Seq::new(self.cols_num as nat, |j: int| self.elements@[i * self.cols_num + j]),
        )
    }
}

/// `m` is a table of `rows` rows, each of exactly `cols` elements.
pub open spec fn is_grid<T>(m: Seq<Seq<T>>, rows: int, cols: int) -> bool {
    m.len() == rows && forall|i: int| 0 <= i < rows ==> (#[trigger] m[i]).len() == cols
}

/// The rows of a row-of-rows vector, as a sequence of sequences.
pub open spec fn rows_view<T>(elements: Seq<Vec<T>>) -> Seq<Seq<T>> {
    elements.map_values(|r: Vec<T>| r@)
}

/// The matrix with `m[i][j]` moved to `r[j][i]`: rows become columns.
pub open spec fn transpose_spec<T>(m: Seq<Seq<T>>) -> Seq<Seq<T>> {
    Seq::new(m[0].len(), |i: int| Seq::new(m.len(), |j: int| m[j][i]))
}

/// The submatrix left after deleting row `row` and column `col`.
pub open spec fn minor_spec<T>(m: Seq<Seq<T>>, row: int, col: int) -> Seq<Seq<T>> {
    Seq::new(
        (m.len() - 1) as nat,
        |i: int|
            Seq::new(
                (m[0].len() - 1) as nat,
                |j: int|
                    m[if i < row {
                        i
                    } else {
                        i + 1
                    }][
                        if j < col {
                            j
                        } else {
                            j + 1
                        }
                    ],
            ),
    )
}

/// Transposing twice gives the original matrix back, for every rectangular
/// matrix.
pub proof fn lemma_transpose_involution<T>(m: Seq<Seq<T>>, rows: int, cols: int)
    requires
        is_grid(m, rows, cols),
        rows >= 1,
        cols >= 1,
    ensures
        transpose_spec(transpose_spec(m)) == m,
{
    let t = transpose_spec(m);
    assert(is_grid(t, cols, rows));
    assert forall|i: int| 0 <= i < rows implies transpose_spec(t)[i] == m[i] by {
        assert(transpose_spec(t)[i] =~= m[i]);
    }
    assert(transpose_spec(t) =~= m);
}

/// The determinant of a 1 by 1 matrix is its single element.
pub proof fn lemma_det_singleton<T: Scalar>(m: Seq<Seq<T>>)
    requires
        is_grid(m, 1, 1),
    ensures
        det_spec(m) == m[0][0],
{
}

/// The determinant of a 2 by 2 matrix is the closed form `a*d - b*c`, in the
/// element type's own arithmetic.
pub proof fn lemma_det_two_by_two<T: Scalar>(m: Seq<Seq<T>>)
    requires
        is_grid(m, 2, 2),
    ensures
        det_spec(m) == (m[0][0].mul_spec(m[1][1])).sub_spec(m[0][1].mul_spec(m[1][0])),
{
}

/// The cofactor of position `(i, j)`: the determinant of the minor at
/// `(i, j)`, negated when `i + j` is odd.
pub open spec fn cofactor_spec<T: Scalar>(m: Seq<Seq<T>>, i: int, j: int) -> T
    decreases m.len(), 0int,
{
    if m.len() == 0 {
        T::zero_spec()
    } else if (i + j) % 2 == 0 {
        det_spec(minor_spec(m, i, j))
    } else {
        det_spec(minor_spec(m, i, j)).neg_spec()
    }
}

/// The partial cofactor expansion of the first row: the sum, in the element
/// type's own arithmetic and in left-to-right order, of
/// `m[0][k] * cofactor(0, k)` for `k < j`, started from the type's zero.
pub open spec fn det_sum_spec<T: Scalar>(m: Seq<Seq<T>>, j: int) -> T
    decreases m.len(), j + 1,
{
    if j <= 0 {
        T::zero_spec()
    } else {
        det_sum_spec(m, j - 1).add_spec(m[0][j - 1].mul_spec(cofactor_spec(m, 0, j - 1)))
    }
}

/// The determinant of a square matrix, exactly as cofactor expansion along
/// the first row computes it: the single element for a 1 by 1 matrix, the
/// closed form `a*d - b*c` for a 2 by 2 matrix, and the first-row cofactor
/// sum for anything larger.
pub open spec fn det_spec<T: Scalar>(m: Seq<Seq<T>>) -> T
    decreases m.len(), m.len() + 2,
{
    if m.len() == 1 {
        m[0][0]
    } else if m.len() == 2 {
        (m[0][0].mul_spec(m[1][1])).sub_spec(m[0][1].mul_spec(m[1][0]))
    } else {
        det_sum_spec(m, m.len() as int)
    }
}

/// The componentwise sum of two same-shaped matrices, in the element type's
/// own addition.
pub open spec fn mat_add_spec<T: Scalar>(a: Seq<Seq<T>>, b: Seq<Seq<T>>) -> Seq<Seq<T>> {
    Seq::new(a.len(), |i: int| Seq::new(a[0].len(), |j: int| a[i][j].add_spec(b[i][j])))
}

/// The first `k` terms of the product entry at `(i, j)`: the sum, in order of
/// rising `k` and started from the type's zero, of `a[i][k] * b[k][j]`.
pub open spec fn mul_entry_spec<T: Scalar>(
    a: Seq<Seq<T>>,
    b: Seq<Seq<T>>,
    i: int,
    j: int,
    k: int,
) -> T
    decreases k,
{
    if k <= 0 {
        T::zero_spec()
    } else {
        mul_entry_spec(a, b, i, j, k - 1).add_spec(a[i][k - 1].mul_spec(b[k - 1][j]))
    }
}

/// The matrix with rows `a` and `b` exchanged.
pub open spec fn swap_rows_spec<T>(m: Seq<Seq<T>>, a: int, b: int) -> Seq<Seq<T>> {
    m.update(a, m[b]).update(b, m[a])
}

/// The first row at or below `start` whose entry in column `lead` is not the
/// type's zero under the type's equality; `m.len()` when no such row exists.
pub open spec fn find_lead_row_spec<T: Scalar>(m: Seq<Seq<T>>, start: int, lead: int) -> int
    decreases m.len() - start,
{
    if start < 0 || start >= m.len() {
        m.len() as int
    } else if !m[start][lead].eq_spec(T::zero_spec()) {
        start
    } else {
        find_lead_row_spec(m, start + 1, lead)
    }
}

/// Row `r` with every entry divided by `pivot`; other rows untouched.
pub open spec fn scale_row_spec<T: Scalar>(m: Seq<Seq<T>>, r: int, pivot: T) -> Seq<Seq<T>> {
    m.update(r, Seq::new(m[r].len(), |j: int| m[r][j].div_spec(pivot)))
}

/// One elimination: if row `t` has a nonzero entry in column `lead`, add
/// `-m[t][lead]` times pivot row `p` to row `t`; otherwise leave `m` as it
/// is.
pub open spec fn eliminate_row_spec<T: Scalar>(m: Seq<Seq<T>>, p: int, t: int, lead: int) -> Seq<
    Seq<T>,
> {
    if m[t][lead].eq_spec(T::zero_spec()) {
        m
    } else {
        let scalar = m[t][lead].neg_spec();
        m.update(t, Seq::new(m[t].len(), |j: int| m[t][j].add_spec(scalar.mul_spec(m[p][j]))))
    }
}

/// Eliminate column `lead` from every row from `t` downward, using pivot row
/// `p`, one row at a time in order.
pub open spec fn eliminate_below_spec<T: Scalar>(
    m: Seq<Seq<T>>,
    p: int,
    lead: int,
    t: int,
) -> Seq<Seq<T>>
    decreases m.len() - t,
{
    if t < 0 || t >= m.len() {
        m
    } else {
        eliminate_below_spec(eliminate_row_spec(m, p, t, lead), p, lead, t + 1)
    }
}

/// One step of the forward elimination for row `row` at column `lead`: swap
/// the first row with a nonzero lead entry into place; if the pivot is
/// nonzero, scale the pivot row to a unit lead entry, eliminate the column
/// below it and advance the lead column, else leave the row and the lead
/// column as they are.
pub open spec fn echelon_step_spec<T: Scalar>(m: Seq<Seq<T>>, lead: int, row: int) -> (Seq<
    Seq<T>,
>, int) {
    let lr = find_lead_row_spec(m, row, lead);
    let swapped = if lr < m.len() {
        swap_rows_spec(m, row, lr)
    } else {
        m
    };
    if !swapped[row][lead].eq_spec(T::zero_spec()) {
        let pivot = swapped[row][lead];
        let scaled = scale_row_spec(swapped, row, pivot);
        (eliminate_below_spec(scaled, row, lead, row + 1), lead + 1)
    } else {
        (swapped, lead)
    }
}

/// The state (matrix and lead column) after the first `k` rows have been
/// processed by the forward elimination.
pub open spec fn echelon_upto_spec<T: Scalar>(m: Seq<Seq<T>>, k: int) -> (Seq<Seq<T>>, int)
    decreases k,
{
    if k <= 0 {
        (m, 0)
    } else {
        let prev = echelon_upto_spec(m, k - 1);
        echelon_step_spec(prev.0, prev.1, k - 1)
    }
}

/// The row-echelon form that forward Gaussian elimination (unit pivots, no
/// full pivoting, exact zero tests) produces from `m`.
pub open spec fn row_echelon_spec<T: Scalar>(m: Seq<Seq<T>>) -> Seq<Seq<T>> {
    echelon_upto_spec(m, m.len() as int).0
}

/// The independence test this engine uses: reduce to row-echelon form and
/// ask whether the bottom-right entry differs from the type's zero.
pub open spec fn independent_spec<T: Scalar>(m: Seq<Seq<T>>, rows: int, cols: int) -> bool {
    !row_echelon_spec(m)[rows - 1][cols - 1].eq_spec(T::zero_spec())
}

/// A scan that lands on a row (rather than running past the last one) lands
/// on a row whose lead entry is nonzero.
pub(crate) proof fn lemma_find_lead_row_hit<T: Scalar>(m: Seq<Seq<T>>, start: int, lead: int)
    requires
        0 <= start <= m.len(),
    ensures
        find_lead_row_spec(m, start, lead) < m.len() ==> !m[find_lead_row_spec(
            m,
            start,
            lead,
        )][lead].eq_spec(T::zero_spec()),
    decreases m.len() - start,
{
    if start < m.len() && m[start][lead].eq_spec(T::zero_spec()) {
        lemma_find_lead_row_hit(m, start + 1, lead);
    }
}

/// Eliminating below a pivot preserves the matrix's shape.
pub(crate) proof fn lemma_eliminate_below_shape<T: Scalar>(
    m: Seq<Seq<T>>,
    rows: int,
    cols: int,
    p: int,
    lead: int,
    t: int,
)
    requires
        is_grid(m, rows, cols),
        0 <= p < rows,
    ensures
        is_grid(eliminate_below_spec(m, p, lead, t), rows, cols),
    decreases m.len() - t,
{
    if 0 <= t < m.len() {
        let next = eliminate_row_spec(m, p, t, lead);
        assert(is_grid(next, rows, cols));
        lemma_eliminate_below_shape(next, rows, cols, p, lead, t + 1);
    }
}

/// The forward elimination preserves the matrix's shape, and the lead column
/// never gets ahead of the number of processed rows.
pub(crate) proof fn lemma_echelon_shape<T: Scalar>(m: Seq<Seq<T>>, rows: int, cols: int, k: int)
    requires
        is_grid(m, rows, cols),
        0 <= k <= rows,
        rows >= 1,
    ensures
        is_grid(echelon_upto_spec(m, k).0, rows, cols),
        0 <= echelon_upto_spec(m, k).1 <= k,
    decreases k,
{
    if k > 0 {
        lemma_echelon_shape(m, rows, cols, k - 1);
        let prev = echelon_upto_spec(m, k - 1);
        let row = k - 1;
        let lr = find_lead_row_spec(prev.0, row, prev.1);
        lemma_find_lead_row_range(prev.0, row, prev.1);
        let swapped = if lr < prev.0.len() {
            swap_rows_spec(prev.0, row, lr)
        } else {
            prev.0
        };
        assert(is_grid(swapped, rows, cols));
        if !swapped[row][prev.1].eq_spec(T::zero_spec()) {
            let pivot = swapped[row][prev.1];
            let scaled = scale_row_spec(swapped, row, pivot);
            assert(is_grid(scaled, rows, cols));
            lemma_eliminate_below_shape(scaled, rows, cols, row, prev.1, row + 1);
        }
    }
}

/// Where the scan for a lead row can end up: between its start and one past
/// the last row.
pub(crate) proof fn lemma_find_lead_row_range<T: Scalar>(m: Seq<Seq<T>>, start: int, lead: int)
    requires
        0 <= start <= m.len(),
    ensures
        start <= find_lead_row_spec(m, start, lead),
        find_lead_row_spec(m, start, lead) <= m.len(),
    decreases m.len() - start,
{
    if start < m.len() && m[start][lead].eq_spec(T::zero_spec()) {
        lemma_find_lead_row_range(m, start + 1, lead);
    }
}

/// The vector left after subtracting from `orig`, one at a time and in
/// order, its projections onto the first `j` rows of `basis`.  Every
/// projection scalar is `dot(orig, basis[l]) / dot(basis[l], basis[l])`,
/// computed against the original vector.
pub open spec fn gs_reduce_spec<T: Scalar>(orig: Seq<T>, basis: Seq<Seq<T>>, j: int) -> Seq<T>
    decreases j,
{
    if j <= 0 {
        orig
    } else {
        let prev = gs_reduce_spec(orig, basis, j - 1);
        let ps = dot_spec(orig, basis[j - 1]).div_spec(dot_spec(basis[j - 1], basis[j - 1]));
        Seq::new(prev.len(), |k: int| prev[k].sub_spec(ps.mul_spec(basis[j - 1][k])))
    }
}

/// The first `i` rows the Gram-Schmidt pass produces from `rows`: each row
/// reduced against the rows already produced, and normalized to unit length
/// when `normalize` is set.
pub open spec fn gs_basis_spec<T: Scalar>(rows: Seq<Seq<T>>, normalize: bool, i: int) -> Seq<
    Seq<T>,
>
    decreases i,
{
    if i <= 0 {
        Seq::empty()
    } else {
        let prev = gs_basis_spec(rows, normalize, i - 1);
        let reduced = gs_reduce_spec(rows[i - 1], prev, i - 1);
        let produced = if normalize {
            normalize_spec(reduced)
        } else {
            reduced
        };
        prev.push(produced)
    }
}

/// Whether the first `i` Gram-Schmidt steps go through without a degenerate
/// vector: every projection denominator differs from the type's zero, and,
/// when normalizing, so does every produced row's norm.
pub open spec fn gs_ok_spec<T: Scalar>(rows: Seq<Seq<T>>, normalize: bool, i: int) -> bool
    decreases i,
{
    if i <= 0 {
        true
    } else {
        let prev = gs_basis_spec(rows, normalize, i - 1);
        &&& gs_ok_spec(rows, normalize, i - 1)
        &&& forall|j: int|
            0 <= j < i - 1 ==> !dot_spec(#[trigger] prev[j], prev[j]).eq_spec(T::zero_spec())
        &&& (normalize ==> !norm_spec(gs_reduce_spec(rows[i - 1], prev, i - 1)).eq_spec(
            T::zero_spec(),
        ))
    }
}

/// A Gram-Schmidt pass that goes through `n` steps without a degenerate
/// vector also goes through any earlier number of steps.
proof fn lemma_gs_ok_prefix<T: Scalar>(rows: Seq<Seq<T>>, normalize: bool, k: int, n: int)
    requires
        0 <= k <= n,
        gs_ok_spec(rows, normalize, n),
    ensures
        gs_ok_spec(rows, normalize, k),
    decreases n - k,
{
    if k < n {
        lemma_gs_ok_prefix(rows, normalize, k, n - 1);
    }
}

/// Flat indices of distinct in-range positions are distinct, and in range of
/// the buffer.
proof fn lemma_flat_index(rows: int, cols: int, i: int, j: int)
    requires
        0 <= i < rows,
        0 <= j < cols,
    ensures
        0 <= i * cols + j < rows * cols,
{
    assert(0 <= i * cols + j < rows * cols) by (nonlinear_arith)
        requires
            0 <= i < rows,
            0 <= j < cols,
    ;
}

/// Two in-range positions give the same flat index only if they are the same
/// position.
proof fn lemma_flat_index_injective(cols: int, i1: int, j1: int, i2: int, j2: int)
    requires
        0 <= j1 < cols,
        0 <= j2 < cols,
        0 <= i1,
        0 <= i2,
        i1 * cols + j1 == i2 * cols + j2,
    ensures
        i1 == i2 && j1 == j2,
{
    assert(i1 == i2 && j1 == j2) by (nonlinear_arith)
        requires
            0 <= j1 < cols,
            0 <= j2 < cols,
            0 <= i1,
            0 <= i2,
            i1 * cols + j1 == i2 * cols + j2,
    ;
}

impl<T: Scalar> Matrix<T> {
    /// The shape invariant: a non-empty rectangular table whose buffer holds
    /// exactly `rows_num * cols_num` elements.
    pub open spec fn well_formed(&self) -> bool {
        &&& self.rows_num >= 1
        &&& self.cols_num >= 1
        &&& self.elements@.len() == self.rows_num * self.cols_num
    }

    /// Validated construction from a row-major sequence of rows.  Fails with
    /// a shape error exactly when the input holds no element at all or some
    /// row's length differs from the first row's.
    pub fn new(elements: Vec<Vec<T>>) -> (r: Result<Matrix<T>, AlgebraError>)
        ensures
            match r {
                Ok(m) => {
                    &&& m.well_formed()
                    &&& m.rows_num == elements@.len()
                    &&& m.cols_num == elements@[0]@.len()
                    &&& m@ == rows_view(elements@)
                    &&& elements@.len() >= 1
                    &&& elements@[0]@.len() >= 1
                    &&& forall|i: int|
                        0 <= i < elements@.len() ==> (#[trigger] elements@[i])@.len()
                            == elements@[0]@.len()
                },
                Err(e) => {
                    &&& e == AlgebraError::Shape
                    &&& {
                        ||| elements@.len() == 0
                        ||| elements@[0]@.len() == 0
                        ||| exists|i: int|
                            0 <= i < elements@.len() && (#[trigger] elements@[i])@.len()
                                != elements@[0]@.len()
                    }
                },
            },
    {
        let rows_num = elements.len();
        if rows_num == 0 {
            return Err(AlgebraError::Shape);
        }
        let cols_num = elements[0].len();
        if cols_num == 0 {
            return Err(AlgebraError::Shape);
        }
        let mut i: usize = 0;
        while i < rows_num
            invariant
                rows_num == elements@.len(),
                cols_num == elements@[0]@.len(),
                i <= rows_num,
                forall|k: int| 0 <= k < i ==> (#[trigger] elements@[k])@.len() == cols_num,
            decreases rows_num - i,
        {
            if elements[i].len() != cols_num {
                return Err(AlgebraError::Shape);
            }
            i += 1;
        }
        let mut data: Vec<T> = Vec::new();
        let mut row: usize = 0;
        while row < rows_num
            invariant
                rows_num == elements@.len(),
                cols_num == elements@[0]@.len(),
                cols_num >= 1,
                rows_num >= 1,
                forall|k: int| 0 <= k < rows_num ==> (#[trigger] elements@[k])@.len() == cols_num,
                row <= rows_num,
                data@.len() == row * cols_num,
                forall|k: int|
                    0 <= k < data@.len() ==> #[trigger] data@[k] == elements@[k / cols_num as int]@[k
                        % cols_num as int],
            decreases rows_num - row,
        {
            let source = &elements[row];
            let mut j: usize = 0;
            while j < cols_num
                invariant
                    rows_num == elements@.len(),
                    cols_num == elements@[0]@.len(),
                    row < rows_num,
                    source@ == elements@[row as int]@,
                    source@.len() == cols_num,
                    j <= cols_num,
                    data@.len() == row * cols_num + j,
                    forall|k: int|
                        0 <= k < data@.len() ==> #[trigger] data@[k] == elements@[k
                            / cols_num as int]@[k % cols_num as int],
                decreases cols_num - j,
            {
                proof {
                    vstd::arithmetic::div_mod::lemma_fundamental_div_mod_converse(
                        row as int * cols_num + j,
                        cols_num as int,
                        row as int,
                        j as int,
                    );
                }
                data.push(source[j]);
                j += 1;
            }
            row += 1;
            assert(data@.len() == row * cols_num) by (nonlinear_arith)
                requires
                    data@.len() == (row - 1) * cols_num + cols_num,
            ;
        }
        let m = Matrix { elements: data, rows_num, cols_num };
        proof {
            assert(m.well_formed());
            assert forall|i2: int| 0 <= i2 < rows_num implies m@[i2] == rows_view(elements@)[i2] by {
                assert forall|j2: int| 0 <= j2 < cols_num implies m@[i2][j2] == elements@[i2]@[j2] by {
                    lemma_flat_index(rows_num as int, cols_num as int, i2, j2);
                    vstd::arithmetic::div_mod::lemma_fundamental_div_mod_converse(
                        i2 * cols_num + j2,
                        cols_num as int,
                        i2,
                        j2,
                    );
                }
                assert(m@[i2] =~= rows_view(elements@)[i2]);
            }
            assert(m@ =~= rows_view(elements@));
        }
        Ok(m)
    }

    /// The element in row `i`, column `j`.
    pub fn get(&self, i: usize, j: usize) -> (r: T)
        requires
            self.well_formed(),
            i < self.rows_num,
            j < self.cols_num,
        ensures
            r == self@[i as int][j as int],
    {
        let _buffer_len = self.elements.len();
        proof {
            lemma_flat_index(self.rows_num as int, self.cols_num as int, i as int, j as int);
        }
        self.elements[i * self.cols_num + j]
    }

    /// Overwrite the element in row `i`, column `j`.
    pub fn set_entry(&mut self, i: usize, j: usize, v: T)
        requires
            old(self).well_formed(),
            i < old(self).rows_num,
            j < old(self).cols_num,
        ensures
            final(self).well_formed(),
            final(self).rows_num == old(self).rows_num,
            final(self).cols_num == old(self).cols_num,
            final(self)@ == old(self)@.update(i as int, old(self)@[i as int].update(j as int, v)),
    {
        let _buffer_len = self.elements.len();
        proof {
            lemma_flat_index(self.rows_num as int, self.cols_num as int, i as int, j as int);
        }
        let idx = i * self.cols_num + j;
        self.elements[idx] = v;
        proof {
            let cols = self.cols_num as int;
            let target = old(self)@.update(i as int, old(self)@[i as int].update(j as int, v));
            assert forall|i2: int| 0 <= i2 < self.rows_num implies self@[i2] == target[i2] by {
                assert forall|j2: int| 0 <= j2 < cols implies self@[i2][j2] == target[i2][j2] by {
                    lemma_flat_index(self.rows_num as int, cols, i2, j2);
                    if i2 * cols + j2 == i as int * cols + j as int {
                        lemma_flat_index_injective(cols, i2, j2, i as int, j as int);
                    }
                }
                assert(self@[i2] =~= target[i2]);
            }
            assert(self@ =~= target);
        }
    }

    /// A `rows` by `cols` matrix with every entry equal to `v`.
    pub fn filled(rows: usize, cols: usize, v: T) -> (r: Matrix<T>)
        requires
            rows >= 1,
            cols >= 1,
            rows * cols <= usize::MAX,
        ensures
            r.well_formed(),
            r.rows_num == rows,
            r.cols_num == cols,
            forall|i: int, j: int| 0 <= i < rows && 0 <= j < cols ==> r@[i][j] == v,
    {
        let total = rows * cols;
        let mut data: Vec<T> = Vec::new();
        let mut k: usize = 0;
        while k < total
            invariant
                k <= total,
                data@.len() == k,
                forall|k2: int| 0 <= k2 < k ==> #[trigger] data@[k2] == v,
            decreases total - k,
        {
            data.push(v);
            k += 1;
        }
        let r = Matrix { elements: data, rows_num: rows, cols_num: cols };
        proof {
            assert forall|i: int, j: int| 0 <= i < rows && 0 <= j < cols implies r@[i][j] == v by {
                lemma_flat_index(rows as int, cols as int, i, j);
            }
        }
        r
    }

    /// The `size` by `size` matrix with ones on the diagonal and zeros
    /// elsewhere.
    pub fn identity(size: usize) -> (r: Matrix<T>)
        requires
            size >= 1,
            size * size <= usize::MAX,
        ensures
            r.well_formed(),
            r.rows_num == size,
            r.cols_num == size,
            forall|i: int, j: int|
                0 <= i < size && 0 <= j < size ==> r@[i][j] == (if i == j {
                    T::one_spec()
                } else {
                    T::zero_spec()
                }),
    {
        let mut r = Matrix::filled(size, size, T::zero_val());
        let mut i: usize = 0;
        while i < size
            invariant
                r.well_formed(),
                r.rows_num == size,
                r.cols_num == size,
                i <= size,
                forall|i2: int, j2: int|
                    0 <= i2 < size && 0 <= j2 < size ==> r@[i2][j2] == (if i2 == j2 && i2 < i {
                        T::one_spec()
                    } else {
                        T::zero_spec()
                    }),
            decreases size - i,
        {
            r.set_entry(i, i, T::one_val());
            i += 1;
        }
        r
    }

    /// A new matrix with rows and columns exchanged.
    pub fn transpose(&self) -> (r: Matrix<T>)
        requires
            self.well_formed(),
        ensures
            r.well_formed(),
            r.rows_num == self.cols_num,
            r.cols_num == self.rows_num,
            r@ == transpose_spec(self@),
            forall|i: int, j: int|
                0 <= i < self.cols_num && 0 <= j < self.rows_num ==> r@[i][j] == self@[j][i],
    {
        proof {
            vstd::std_specs::vec::axiom_spec_len(&self.elements);
            assert(self.cols_num * self.rows_num <= usize::MAX) by (nonlinear_arith)
                requires
                    self.rows_num * self.cols_num <= usize::MAX,
            ;
        }
        let mut r = Matrix::filled(self.cols_num, self.rows_num, self.get(0, 0));
        let mut i: usize = 0;
        while i < self.cols_num
            invariant
                self.well_formed(),
                r.well_formed(),
                r.rows_num == self.cols_num,
                r.cols_num == self.rows_num,
                i <= self.cols_num,
                forall|i2: int, j2: int|
                    0 <= i2 < i && 0 <= j2 < self.rows_num ==> #[trigger] r@[i2][j2]
                        == self@[j2][i2],
            decreases self.cols_num - i,
        {
            let mut j: usize = 0;
            while j < self.rows_num
                invariant
                    self.well_formed(),
                    r.well_formed(),
                    r.rows_num == self.cols_num,
                    r.cols_num == self.rows_num,
                    i < self.cols_num,
                    j <= self.rows_num,
                    forall|i2: int, j2: int|
                        0 <= i2 < i && 0 <= j2 < self.rows_num ==> #[trigger] r@[i2][j2]
                            == self@[j2][i2],
                    forall|j2: int|
                        0 <= j2 < j ==> #[trigger] r@[i as int][j2] == self@[j2][i as int],
                decreases self.rows_num - j,
            {
                let v = self.get(j, i);
                r.set_entry(i, j, v);
                j += 1;
            }
            i += 1;
        }
        proof {
            assert forall|i2: int| 0 <= i2 < self.cols_num implies r@[i2] == transpose_spec(
                self@,
            )[i2] by {
                assert(r@[i2] =~= transpose_spec(self@)[i2]);
            }
            assert(r@ =~= transpose_spec(self@));
        }
        r
    }

    /// The submatrix formed by deleting row `row` and column `col`.
    pub fn minor(&self, row: usize, col: usize) -> (r: Matrix<T>)
        requires
            self.well_formed(),
            self.rows_num >= 2,
            self.cols_num >= 2,
            row < self.rows_num,
            col < self.cols_num,
        ensures
            r.well_formed(),
            r.rows_num == self.rows_num - 1,
            r.cols_num == self.cols_num - 1,
            r@ == minor_spec(self@, row as int, col as int),
    {
        let new_rows = self.rows_num - 1;
        let new_cols = self.cols_num - 1;
        proof {
            vstd::std_specs::vec::axiom_spec_len(&self.elements);
            assert(new_rows * new_cols <= usize::MAX) by (nonlinear_arith)
                requires
                    self.rows_num * self.cols_num <= usize::MAX,
                    new_rows == self.rows_num - 1,
                    new_cols == self.cols_num - 1,
                    self.rows_num >= 2,
                    self.cols_num >= 2,
            ;
        }
        let mut r = Matrix::filled(new_rows, new_cols, self.get(0, 0));
        let mut i: usize = 0;
        while i < new_rows
            invariant
                self.well_formed(),
                r.well_formed(),
                r.rows_num == new_rows,
                r.cols_num == new_cols,
                new_rows == self.rows_num - 1,
                new_cols == self.cols_num - 1,
                row < self.rows_num,
                col < self.cols_num,
                i <= new_rows,
                forall|i2: int, j2: int|
                    0 <= i2 < i && 0 <= j2 < new_cols ==> #[trigger] r@[i2][j2] == minor_spec(
                        self@,
                        row as int,
                        col as int,
                    )[i2][j2],
            decreases new_rows - i,
        {
            let source_row = if i < row {
                i
            } else {
                i + 1
            };
            let mut j: usize = 0;
            while j < new_cols
                invariant
                    self.well_formed(),
                    r.well_formed(),
                    r.rows_num == new_rows,
                    r.cols_num == new_cols,
                    new_rows == self.rows_num - 1,
                    new_cols == self.cols_num - 1,
                    row < self.rows_num,
                    col < self.cols_num,
                    i < new_rows,
                    j <= new_cols,
                    source_row == (if i < row {
                        i as int
                    } else {
                        i as int + 1
                    }),
                    forall|i2: int, j2: int|
                        0 <= i2 < i && 0 <= j2 < new_cols ==> #[trigger] r@[i2][j2] == minor_spec(
                            self@,
                            row as int,
                            col as int,
                        )[i2][j2],
                    forall|j2: int|
                        0 <= j2 < j ==> #[trigger] r@[i as int][j2] == minor_spec(
                            self@,
                            row as int,
                            col as int,
                        )[i as int][j2],
                decreases new_cols - j,
            {
                let source_col = if j < col {
                    j
                } else {
                    j + 1
                };
                let v = self.get(source_row, source_col);
                r.set_entry(i, j, v);
                j += 1;
            }
            i += 1;
        }
        proof {
            assert forall|i2: int| 0 <= i2 < new_rows implies r@[i2] == minor_spec(
                self@,
                row as int,
                col as int,
            )[i2] by {
                assert(r@[i2] =~= minor_spec(self@, row as int, col as int)[i2]);
            }
            assert(r@ =~= minor_spec(self@, row as int, col as int));
        }
        r
    }

    /// The determinant, by recursive cofactor expansion along the first row.
    /// A non-square matrix is rejected with a shape error; a square one
    /// always yields the determinant of the view.
    pub fn determinant(&self) -> (r: Result<T, AlgebraError>)
        requires
            self.well_formed(),
        ensures
            self.rows_num == self.cols_num ==> r == Ok::<T, AlgebraError>(det_spec(self@)),
            self.rows_num != self.cols_num ==> r == Err::<T, AlgebraError>(AlgebraError::Shape),
        decreases self.rows_num,
    {
        if self.rows_num != self.cols_num {
            return Err(AlgebraError::Shape);
        }
        if self.rows_num == 1 {
            return Ok(self.get(0, 0));
        }
        if self.rows_num == 2 {
            let a = self.get(0, 0);
            let b = self.get(0, 1);
            let c = self.get(1, 0);
            let d = self.get(1, 1);
            return Ok(a.mul_val(d).sub_val(b.mul_val(c)));
        }
        let mut det = T::zero_val();
        let mut j: usize = 0;
        while j < self.cols_num
            invariant
                self.well_formed(),
                self.rows_num == self.cols_num,
                self.rows_num >= 3,
                j <= self.cols_num,
                det == det_sum_spec(self@, j as int),
            decreases self.cols_num - j,
        {
            let minor = self.minor(0, j);
            let minor_det = match minor.determinant() {
                Ok(v) => v,
                Err(_) => T::zero_val(),
            };
            let cofactor = if j % 2 == 0 {
                minor_det
            } else {
                minor_det.neg_val()
            };
            det = det.add_val(self.get(0, j).mul_val(cofactor));
            proof {
                let m = self@;
                let jj = j as int;
                assert(cofactor_spec(m, 0, jj) == if jj % 2 == 0 {
                    det_spec(minor_spec(m, 0, jj))
                } else {
                    det_spec(minor_spec(m, 0, jj)).neg_spec()
                });
                assert(det_sum_spec(m, jj + 1) == det_sum_spec(m, jj).add_spec(
                    m[0][jj].mul_spec(cofactor_spec(m, 0, jj)),
                ));
            }
            j += 1;
        }
        Ok(det)
    }

    /// Whether the determinant is exactly the element type's one.
    pub fn is_unimodular(&self) -> (r: bool)
        requires
            self.well_formed(),
            self.rows_num == self.cols_num,
        ensures
            r == det_spec(self@).eq_spec(T::one_spec()),
    {
        let det = match self.determinant() {
            Ok(v) => v,
            Err(_) => T::zero_val(),
        };
        det.eq_val(T::one_val())
    }

    /// The inverse as adjugate over determinant.  A non-square matrix is
    /// rejected with a shape error; a determinant equal to the type's zero
    /// yields the defined empty result `None`; otherwise entry `(j, i)` of
    /// the inverse is the cofactor at `(i, j)` divided by the determinant
    /// (the transposed assignment builds the adjugate).
    pub fn inverse(&self) -> (r: Result<Option<Matrix<T>>, AlgebraError>)
        requires
            self.well_formed(),
            self.rows_num == self.cols_num ==> self.rows_num >= 2,
        ensures
            self.rows_num != self.cols_num ==> r == Err::<Option<Matrix<T>>, AlgebraError>(
                AlgebraError::Shape,
            ),
            self.rows_num == self.cols_num ==> match r {
                Ok(opt) => if det_spec(self@).eq_spec(T::zero_spec()) {
                    opt is None
                } else {
                    match opt {
                        Some(inv) => {
                            &&& inv.well_formed()
                            &&& inv.rows_num == self.rows_num
                            &&& inv.cols_num == self.cols_num
                            &&& forall|i: int, j: int|
                                0 <= i < self.rows_num && 0 <= j < self.cols_num
                                    ==> #[trigger] inv@[j][i] == cofactor_spec(
                                    self@,
                                    i,
                                    j,
                                ).div_spec(det_spec(self@))
                        },
                        None => false,
                    }
                },
                Err(_) => false,
            },
    {
        if self.rows_num != self.cols_num {
            return Err(AlgebraError::Shape);
        }
        let det = match self.determinant() {
            Ok(v) => v,
            Err(_) => T::zero_val(),
        };
        if det.eq_val(T::zero_val()) {
            return Ok(None);
        }
        let n = self.rows_num;
        proof {
            vstd::std_specs::vec::axiom_spec_len(&self.elements);
        }
        let mut inv = Matrix::filled(n, n, T::zero_val());
        let mut i: usize = 0;
        while i < n
            invariant
                self.well_formed(),
                self.rows_num == n,
                self.cols_num == n,
                n >= 2,
                det == det_spec(self@),
                inv.well_formed(),
                inv.rows_num == n,
                inv.cols_num == n,
                i <= n,
                forall|i2: int, j2: int|
                    0 <= i2 < i && 0 <= j2 < n ==> #[trigger] inv@[j2][i2] == cofactor_spec(
                        self@,
                        i2,
                        j2,
                    ).div_spec(det),
            decreases n - i,
        {
            let mut j: usize = 0;
            while j < n
                invariant
                    self.well_formed(),
                    self.rows_num == n,
                    self.cols_num == n,
                    n >= 2,
                    det == det_spec(self@),
                    inv.well_formed(),
                    inv.rows_num == n,
                    inv.cols_num == n,
                    i < n,
                    j <= n,
                    forall|i2: int, j2: int|
                        0 <= i2 < i && 0 <= j2 < n ==> #[trigger] inv@[j2][i2] == cofactor_spec(
                            self@,
                            i2,
                            j2,
                        ).div_spec(det),
                    forall|j2: int|
                        0 <= j2 < j ==> #[trigger] inv@[j2][i as int] == cofactor_spec(
                            self@,
                            i as int,
                            j2,
                        ).div_spec(det),
                decreases n - j,
            {
                let minor = self.minor(i, j);
                let minor_det = match minor.determinant() {
                    Ok(v) => v,
                    Err(_) => T::zero_val(),
                };
                proof {
                    vstd::std_specs::vec::axiom_spec_len(&self.elements);
                    assert(i + j < usize::MAX) by (nonlinear_arith)
                        requires
                            n * n <= usize::MAX,
                            n >= 2,
                            (i as int) < n as int,
                            (j as int) < n as int,
                    ;
                }
                let cofactor = if (i + j) % 2 == 0 {
                    minor_det
                } else {
                    minor_det.neg_val()
                };
                inv.set_entry(j, i, cofactor.div_val(det));
                j += 1;
            }
            i += 1;
        }
        Ok(Some(inv))
    }

    /// Componentwise sum.  Fails with a shape error exactly when the two
    /// matrices do not have the same shape.
    pub fn mat_add(&self, rhs: &Matrix<T>) -> (r: Result<Matrix<T>, AlgebraError>)
        requires
            self.well_formed(),
            rhs.well_formed(),
        ensures
            match r {
                Ok(m) => {
                    &&& self.rows_num == rhs.rows_num
                    &&& self.cols_num == rhs.cols_num
                    &&& m.well_formed()
                    &&& m.rows_num == self.rows_num
                    &&& m.cols_num == self.cols_num
                    &&& m@ == mat_add_spec(self@, rhs@)
                },
                Err(e) => {
                    &&& e == AlgebraError::Shape
                    &&& (self.rows_num != rhs.rows_num || self.cols_num != rhs.cols_num)
                },
            },
    {
        if self.rows_num != rhs.rows_num || self.cols_num != rhs.cols_num {
            return Err(AlgebraError::Shape);
        }
        proof {
            vstd::std_specs::vec::axiom_spec_len(&self.elements);
        }
        let mut m = Matrix::filled(self.rows_num, self.cols_num, T::zero_val());
        let mut i: usize = 0;
        while i < self.rows_num
            invariant
                self.well_formed(),
                rhs.well_formed(),
                rhs.rows_num == self.rows_num,
                rhs.cols_num == self.cols_num,
                m.well_formed(),
                m.rows_num == self.rows_num,
                m.cols_num == self.cols_num,
                i <= self.rows_num,
                forall|i2: int, j2: int|
                    0 <= i2 < i && 0 <= j2 < self.cols_num ==> #[trigger] m@[i2][j2]
                        == self@[i2][j2].add_spec(rhs@[i2][j2]),
            decreases self.rows_num - i,
        {
            let mut j: usize = 0;
            while j < self.cols_num
                invariant
                    self.well_formed(),
                    rhs.well_formed(),
                    rhs.rows_num == self.rows_num,
                    rhs.cols_num == self.cols_num,
                    m.well_formed(),
                    m.rows_num == self.rows_num,
                    m.cols_num == self.cols_num,
                    i < self.rows_num,
                    j <= self.cols_num,
                    forall|i2: int, j2: int|
                        0 <= i2 < i && 0 <= j2 < self.cols_num ==> #[trigger] m@[i2][j2]
                            == self@[i2][j2].add_spec(rhs@[i2][j2]),
                    forall|j2: int|
                        0 <= j2 < j ==> #[trigger] m@[i as int][j2]
                            == self@[i as int][j2].add_spec(rhs@[i as int][j2]),
                decreases self.cols_num - j,
            {
                let v = self.get(i, j).add_val(rhs.get(i, j));
                m.set_entry(i, j, v);
                j += 1;
            }
            i += 1;
        }
        proof {
            assert forall|i2: int| 0 <= i2 < self.rows_num implies m@[i2] == mat_add_spec(
                self@,
                rhs@,
            )[i2] by {
                assert(m@[i2] =~= mat_add_spec(self@, rhs@)[i2]);
            }
            assert(m@ =~= mat_add_spec(self@, rhs@));
        }
        Ok(m)
    }

    /// Matrix product.  Fails with a shape error exactly when the left
    /// matrix's column count differs from the right matrix's row count;
    /// otherwise entry `(i, j)` is the in-order sum of `self[i][k] *
    /// rhs[k][j]`.
    pub fn mat_mul(&self, rhs: &Matrix<T>) -> (r: Result<Matrix<T>, AlgebraError>)
        requires
            self.well_formed(),
            rhs.well_formed(),
            self.rows_num * rhs.cols_num <= usize::MAX,
        ensures
            match r {
                Ok(m) => {
                    &&& self.cols_num == rhs.rows_num
                    &&& m.well_formed()
                    &&& m.rows_num == self.rows_num
                    &&& m.cols_num == rhs.cols_num
                    &&& forall|i: int, j: int|
                        0 <= i < self.rows_num && 0 <= j < rhs.cols_num ==> #[trigger] m@[i][j]
                            == mul_entry_spec(self@, rhs@, i, j, self.cols_num as int)
                },
                Err(e) => {
                    &&& e == AlgebraError::Shape
                    &&& self.cols_num != rhs.rows_num
                },
            },
    {
        if self.cols_num != rhs.rows_num {
            return Err(AlgebraError::Shape);
        }
        let mut m = Matrix::filled(self.rows_num, rhs.cols_num, T::zero_val());
        let mut i: usize = 0;
        while i < self.rows_num
            invariant
                self.well_formed(),
                rhs.well_formed(),
                rhs.rows_num == self.cols_num,
                m.well_formed(),
                m.rows_num == self.rows_num,
                m.cols_num == rhs.cols_num,
                i <= self.rows_num,
                forall|i2: int, j2: int|
                    0 <= i2 < i && 0 <= j2 < rhs.cols_num ==> #[trigger] m@[i2][j2]
                        == mul_entry_spec(self@, rhs@, i2, j2, self.cols_num as int),
            decreases self.rows_num - i,
        {
            let mut j: usize = 0;
            while j < rhs.cols_num
                invariant
                    self.well_formed(),
                    rhs.well_formed(),
                    rhs.rows_num == self.cols_num,
                    m.well_formed(),
                    m.rows_num == self.rows_num,
                    m.cols_num == rhs.cols_num,
                    i < self.rows_num,
                    j <= rhs.cols_num,
                    forall|i2: int, j2: int|
                        0 <= i2 < i && 0 <= j2 < rhs.cols_num ==> #[trigger] m@[i2][j2]
                            == mul_entry_spec(self@, rhs@, i2, j2, self.cols_num as int),
                    forall|j2: int|
                        0 <= j2 < j ==> #[trigger] m@[i as int][j2] == mul_entry_spec(
                            self@,
                            rhs@,
                            i as int,
                            j2,
                            self.cols_num as int,
                        ),
                decreases rhs.cols_num - j,
            {
                let mut acc = T::zero_val();
                let mut k: usize = 0;
                while k < self.cols_num
                    invariant
                        self.well_formed(),
                        rhs.well_formed(),
                        rhs.rows_num == self.cols_num,
                        i < self.rows_num,
                        j < rhs.cols_num,
                        k <= self.cols_num,
                        acc == mul_entry_spec(self@, rhs@, i as int, j as int, k as int),
                    decreases self.cols_num - k,
                {
                    acc = acc.add_val(self.get(i, k).mul_val(rhs.get(k, j)));
                    k += 1;
                }
                m.set_entry(i, j, acc);
                j += 1;
            }
            i += 1;
        }
        Ok(m)
    }

    /// Exchange rows `a` and `b` in place.
    pub fn swap_rows(&mut self, a: usize, b: usize)
        requires
            old(self).well_formed(),
            a < old(self).rows_num,
            b < old(self).rows_num,
        ensures
            final(self).well_formed(),
            final(self).rows_num == old(self).rows_num,
            final(self).cols_num == old(self).cols_num,
            final(self)@ == swap_rows_spec(old(self)@, a as int, b as int),
    {
        let cols = self.cols_num;
        let mut k: usize = 0;
        while k < cols
            invariant
                self.well_formed(),
                self.rows_num == old(self).rows_num,
                self.cols_num == old(self).cols_num,
                cols == self.cols_num,
                a < self.rows_num,
                b < self.rows_num,
                k <= cols,
                forall|j: int| 0 <= j < k ==> #[trigger] self@[a as int][j] == old(self)@[b as int][j],
                forall|j: int| 0 <= j < k ==> #[trigger] self@[b as int][j] == old(self)@[a as int][j],
                forall|j: int|
                    k <= j < cols ==> #[trigger] self@[a as int][j] == old(self)@[a as int][j],
                forall|j: int|
                    k <= j < cols ==> #[trigger] self@[b as int][j] == old(self)@[b as int][j],
                forall|i: int|
                    0 <= i < self.rows_num && i != a as int && i != b as int ==> #[trigger] self@[i]
                        == old(self)@[i],
            decreases cols - k,
        {
            let va = self.get(a, k);
            let vb = self.get(b, k);
            self.set_entry(a, k, vb);
            self.set_entry(b, k, va);
            k += 1;
        }
        proof {
            let target = swap_rows_spec(old(self)@, a as int, b as int);
            assert forall|i: int| 0 <= i < self.rows_num implies self@[i] == target[i] by {
                assert(self@[i] =~= target[i]);
            }
            assert(self@ =~= target);
        }
    }

    /// Reduce this matrix in place to row-echelon form by forward Gaussian
    /// elimination: for each row, swap up the first row with a nonzero entry
    /// in the lead column, divide it by its pivot, subtract multiples of it
    /// from the rows below, and advance the lead column; a lead column with
    /// no nonzero entry leaves the row untouched.  All zero tests are the
    /// element type's exact equality.
    pub fn to_row_echelon_form(&mut self)
        requires
            old(self).well_formed(),
            old(self).rows_num <= old(self).cols_num,
        ensures
            final(self).well_formed(),
            final(self).rows_num == old(self).rows_num,
            final(self).cols_num == old(self).cols_num,
            final(self)@ == row_echelon_spec(old(self)@),
    {
        let rows = self.rows_num;
        let cols = self.cols_num;
        let ghost m_init = self@;
        let mut lead_ind: usize = 0;
        let mut row: usize = 0;
        while row < rows
            invariant
                self.well_formed(),
                self.rows_num == rows,
                self.cols_num == cols,
                rows <= cols,
                row <= rows,
                lead_ind <= row,
                m_init.len() == rows,
                self@ == echelon_upto_spec(m_init, row as int).0,
                lead_ind as int == echelon_upto_spec(m_init, row as int).1,
            decreases rows - row,
        {
            let ghost m0 = self@;
            let ghost lead0 = lead_ind as int;
            let mut lead_row: usize = row;
            while lead_row < rows && self.get(lead_row, lead_ind).eq_val(T::zero_val())
                invariant
                    self.well_formed(),
                    self.rows_num == rows,
                    self.cols_num == cols,
                    row < rows,
                    lead_ind <= row,
                    rows <= cols,
                    row <= lead_row <= rows,
                    self@ == m0,
                    lead0 == lead_ind as int,
                    find_lead_row_spec(m0, row as int, lead0) == find_lead_row_spec(
                        m0,
                        lead_row as int,
                        lead0,
                    ),
                decreases rows - lead_row,
            {
                lead_row += 1;
            }
            proof {
                if lead_row < rows {
                    assert(find_lead_row_spec(m0, lead_row as int, lead0) == lead_row as int);
                } else {
                    assert(find_lead_row_spec(m0, lead_row as int, lead0) == rows as int);
                }
            }
            if lead_row < rows {
                self.swap_rows(lead_row, row);
                proof {
                    assert(swap_rows_spec(m0, lead_row as int, row as int) =~= swap_rows_spec(
                        m0,
                        row as int,
                        lead_row as int,
                    ));
                }
            }
            let ghost swapped = self@;
            let lead_entry = self.get(row, lead_ind);
            if !lead_entry.eq_val(T::zero_val()) {
                let mut j: usize = 0;
                while j < cols
                    invariant
                        self.well_formed(),
                        self.rows_num == rows,
                        self.cols_num == cols,
                        row < rows,
                        j <= cols,
                        forall|j2: int|
                            0 <= j2 < j ==> #[trigger] self@[row as int][j2] == swapped[row
                                as int][j2].div_spec(lead_entry),
                        forall|j2: int|
                            j <= j2 < cols ==> #[trigger] self@[row as int][j2] == swapped[row
                                as int][j2],
                        forall|i: int|
                            0 <= i < rows && i != row as int ==> #[trigger] self@[i] == swapped[i],
                    decreases cols - j,
                {
                    let v = self.get(row, j).div_val(lead_entry);
                    self.set_entry(row, j, v);
                    j += 1;
                }
                proof {
                    let scaled_target = scale_row_spec(swapped, row as int, lead_entry);
                    assert(swapped[row as int].len() == cols);
                    assert forall|i: int| 0 <= i < rows implies self@[i] == scaled_target[i] by {
                        assert(self@[i] =~= scaled_target[i]);
                    }
                    assert(self@ =~= scaled_target);
                }
                let ghost scaled = self@;
                let mut r: usize = row + 1;
                while r < rows
                    invariant
                        self.well_formed(),
                        self.rows_num == rows,
                        self.cols_num == cols,
                        row < rows,
                        lead_ind <= row,
                        rows <= cols,
                        row + 1 <= r,
                        r <= rows,
                        lead0 == lead_ind as int,
                        eliminate_below_spec(scaled, row as int, lead0, row as int + 1)
                            == eliminate_below_spec(self@, row as int, lead0, r as int),
                    decreases rows - r,
                {
                    let ghost m1 = self@;
                    let target_entry = self.get(r, lead_ind);
                    if !target_entry.eq_val(T::zero_val()) {
                        let scalar = target_entry.neg_val();
                        let mut j2: usize = 0;
                        while j2 < cols
                            invariant
                                self.well_formed(),
                                self.rows_num == rows,
                                self.cols_num == cols,
                                row < rows,
                                r < rows,
                                row < r,
                                lead_ind <= row,
                                rows <= cols,
                                j2 <= cols,
                                scalar == m1[r as int][lead_ind as int].neg_spec(),
                                !m1[r as int][lead_ind as int].eq_spec(T::zero_spec()),
                                forall|j3: int|
                                    0 <= j3 < j2 ==> #[trigger] self@[r as int][j3] == m1[r
                                        as int][j3].add_spec(scalar.mul_spec(m1[row as int][j3])),
                                forall|j3: int|
                                    j2 <= j3 < cols ==> #[trigger] self@[r as int][j3] == m1[r
                                        as int][j3],
                                forall|i: int|
                                    0 <= i < rows && i != r as int ==> #[trigger] self@[i]
                                        == m1[i],
                            decreases cols - j2,
                        {
                            let v = self.get(r, j2).add_val(scalar.mul_val(self.get(row, j2)));
                            self.set_entry(r, j2, v);
                            j2 += 1;
                        }
                        proof {
                            let elim_target = eliminate_row_spec(
                                m1,
                                row as int,
                                r as int,
                                lead0,
                            );
                            assert forall|i: int| 0 <= i < rows implies self@[i]
                                == elim_target[i] by {
                                assert(self@[i] =~= elim_target[i]);
                            }
                            assert(self@ =~= elim_target);
                        }
                    } else {
                        proof {
                            assert(eliminate_row_spec(m1, row as int, r as int, lead0) == m1);
                        }
                    }
                    r += 1;
                }
                lead_ind += 1;
            }
            proof {
                let step = echelon_step_spec(m0, lead0, row as int);
                assert(self@ == step.0);
                assert(lead_ind as int == step.1);
            }
            row += 1;
        }
    }

    /// Copy the matrix, reduce the copy to row-echelon form, and report
    /// whether the bottom-right entry of the result differs from the element
    /// type's zero.
    pub fn check_independence(&self) -> (r: bool)
        requires
            self.well_formed(),
            self.rows_num <= self.cols_num,
        ensures
            r == independent_spec(self@, self.rows_num as int, self.cols_num as int),
    {
        let mut test_mat = self.duplicate();
        test_mat.to_row_echelon_form();
        let entry = test_mat.get(self.rows_num - 1, self.cols_num - 1);
        !entry.eq_val(T::zero_val())
    }

    /// Replace the rows in place by their Gram-Schmidt orthogonalization,
    /// normalized to unit length when `normalize` is set.  Fails with a
    /// degenerate-vector error, leaving the matrix untouched, exactly when
    /// some projection denominator or some produced row's norm is the
    /// element type's zero.
    pub fn gram_schmidt_orthogonalization(&mut self, normalize: bool) -> (r: Result<
        (),
        AlgebraError,
    >)
        requires
            old(self).well_formed(),
        ensures
            final(self).well_formed(),
            final(self).rows_num == old(self).rows_num,
            final(self).cols_num == old(self).cols_num,
            gs_ok_spec(old(self)@, normalize, old(self).rows_num as int) ==> {
                &&& r == Ok::<(), AlgebraError>(())
                &&& final(self)@ == gs_basis_spec(
                    old(self)@,
                    normalize,
                    old(self).rows_num as int,
                )
            },
            !gs_ok_spec(old(self)@, normalize, old(self).rows_num as int) ==> {
                &&& r == Err::<(), AlgebraError>(AlgebraError::DegenerateVector)
                &&& final(self)@ == old(self)@
            },
    {
        let rows = self.rows_num;
        let cols = self.cols_num;
        let ghost m0 = self@;
        let mut basis: Vec<Vec<T>> = Vec::new();
        let mut i: usize = 0;
        while i < rows
            invariant
                self.well_formed(),
                self.rows_num == rows,
                self.cols_num == cols,
                self@ == m0,
                i <= rows,
                gs_ok_spec(m0, normalize, i as int),
                basis@.len() == i,
                rows_view(basis@) == gs_basis_spec(m0, normalize, i as int),
                forall|k: int| 0 <= k < i ==> (#[trigger] basis@[k])@.len() == cols,
            decreases rows - i,
        {
            let ghost prev_basis = gs_basis_spec(m0, normalize, i as int);
            let mut orig: Vec<T> = Vec::new();
            let mut new_vec: Vec<T> = Vec::new();
            let mut k: usize = 0;
            while k < cols
                invariant
                    self.well_formed(),
                    self.rows_num == rows,
                    self.cols_num == cols,
                    self@ == m0,
                    i < rows,
                    k <= cols,
                    orig@ == m0[i as int].subrange(0, k as int),
                    new_vec@ == m0[i as int].subrange(0, k as int),
                decreases cols - k,
            {
                let v = self.get(i, k);
                orig.push(v);
                new_vec.push(v);
                proof {
                    assert(orig@ =~= m0[i as int].subrange(0, k as int + 1));
                    assert(new_vec@ =~= m0[i as int].subrange(0, k as int + 1));
                }
                k += 1;
            }
            proof {
                assert(m0[i as int].subrange(0, cols as int) =~= m0[i as int]);
            }
            let mut j: usize = 0;
            while j < i
                invariant
                    self.well_formed(),
                    self.rows_num == rows,
                    self.cols_num == cols,
                    self@ == m0,
                    i < rows,
                    j <= i,
                    gs_ok_spec(m0, normalize, i as int),
                    basis@.len() == i,
                    rows_view(basis@) == prev_basis,
                    prev_basis == gs_basis_spec(m0, normalize, i as int),
                    forall|k2: int| 0 <= k2 < i ==> (#[trigger] basis@[k2])@.len() == cols,
                    orig@ == m0[i as int],
                    new_vec@ == gs_reduce_spec(m0[i as int], prev_basis, j as int),
                    new_vec@.len() == cols,
                    forall|j2: int|
                        0 <= j2 < j ==> !dot_spec(#[trigger] prev_basis[j2], prev_basis[j2]).eq_spec(
                            T::zero_spec(),
                        ),
                decreases i - j,
            {
                let basis_j = &basis[j];
                let denom = dot_prod_vecs(basis_j, basis_j);
                if denom.eq_val(T::zero_val()) {
                    proof {
                        assert(basis_j@ == rows_view(basis@)[j as int]);
                        assert(dot_spec(prev_basis[j as int], prev_basis[j as int]).eq_spec(
                            T::zero_spec(),
                        ));
                        assert(!gs_ok_spec(m0, normalize, i as int + 1));
                        if gs_ok_spec(m0, normalize, rows as int) {
                            lemma_gs_ok_prefix(m0, normalize, i as int + 1, rows as int);
                        }
                    }
                    return Err(AlgebraError::DegenerateVector);
                }
                let ps = dot_prod_vecs(&orig, basis_j).div_val(denom);
                let mut next: Vec<T> = Vec::new();
                let mut k2: usize = 0;
                while k2 < cols
                    invariant
                        i < rows,
                        j < i,
                        k2 <= cols,
                        basis_j@.len() == cols,
                        new_vec@.len() == cols,
                        next@.len() == k2,
                        forall|k3: int|
                            0 <= k3 < k2 ==> #[trigger] next@[k3] == new_vec@[k3].sub_spec(
                                ps.mul_spec(basis_j@[k3]),
                            ),
                    decreases cols - k2,
                {
                    next.push(new_vec[k2].sub_val(ps.mul_val(basis_j[k2])));
                    k2 += 1;
                }
                proof {
                    let reduced_next = gs_reduce_spec(m0[i as int], prev_basis, j as int + 1);
                    assert(basis_j@ == prev_basis[j as int]);
                    assert(next@ =~= reduced_next);
                }
                new_vec = next;
                j += 1;
            }
            if normalize {
                match normalize_vec(&mut new_vec) {
                    Ok(_) => {},
                    Err(_) => {
                        proof {
                            assert(!gs_ok_spec(m0, normalize, i as int + 1));
                            if gs_ok_spec(m0, normalize, rows as int) {
                                lemma_gs_ok_prefix(m0, normalize, i as int + 1, rows as int);
                            }
                        }
                        return Err(AlgebraError::DegenerateVector);
                    },
                }
            }
            proof {
                assert(gs_ok_spec(m0, normalize, i as int + 1));
                assert(rows_view(basis@.push(new_vec)) =~= gs_basis_spec(
                    m0,
                    normalize,
                    i as int + 1,
                ));
            }
            basis.push(new_vec);
            i += 1;
        }
        let mut i2: usize = 0;
        while i2 < rows
            invariant
                self.well_formed(),
                self.rows_num == rows,
                self.cols_num == cols,
                i2 <= rows,
                basis@.len() == rows,
                rows_view(basis@) == gs_basis_spec(m0, normalize, rows as int),
                forall|k: int| 0 <= k < rows ==> (#[trigger] basis@[k])@.len() == cols,
                forall|i3: int| 0 <= i3 < i2 ==> #[trigger] self@[i3] == basis@[i3]@,
            decreases rows - i2,
        {
            let source = &basis[i2];
            let mut j2: usize = 0;
            while j2 < cols
                invariant
                    self.well_formed(),
                    self.rows_num == rows,
                    self.cols_num == cols,
                    i2 < rows,
                    j2 <= cols,
                    basis@.len() == rows,
                    source@ == basis@[i2 as int]@,
                    source@.len() == cols,
                    forall|i3: int| 0 <= i3 < i2 ==> #[trigger] self@[i3] == basis@[i3]@,
                    forall|j3: int|
                        0 <= j3 < j2 ==> #[trigger] self@[i2 as int][j3] == basis@[i2 as int]@[j3],
                decreases cols - j2,
            {
                self.set_entry(i2, j2, source[j2]);
                j2 += 1;
            }
            proof {
                assert(self@[i2 as int] =~= basis@[i2 as int]@);
            }
            i2 += 1;
        }
        proof {
            assert forall|i3: int| 0 <= i3 < rows implies self@[i3] == gs_basis_spec(
                m0,
                normalize,
                rows as int,
            )[i3] by {
                assert(self@[i3] == rows_view(basis@)[i3]);
            }
            assert(gs_basis_spec(m0, normalize, rows as int).len() == rows) by {
                assert(rows_view(basis@).len() == rows);
            }
            assert(self@ =~= gs_basis_spec(m0, normalize, rows as int));
        }
        Ok(())
    }

    /// An independently owned copy of this matrix.
    pub fn duplicate(&self) -> (r: Matrix<T>)
        requires
            self.well_formed(),
        ensures
            r.well_formed(),
            r.rows_num == self.rows_num,
            r.cols_num == self.cols_num,
            r@ == self@,
    {
        let mut data: Vec<T> = Vec::new();
        let len = self.elements.len();
        let mut k: usize = 0;
        while k < len
            invariant
                len == self.elements@.len(),
                k <= len,
                data@ == self.elements@.subrange(0, k as int),
            decreases len - k,
        {
            data.push(self.elements[k]);
            k += 1;
        }
        assert(data@ =~= self.elements@);
        let r = Matrix { elements: data, rows_num: self.rows_num, cols_num: self.cols_num };
        assert(r@ =~= self@);
        r
    }
}

} // verus!
