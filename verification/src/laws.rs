use vstd::prelude::*;

use crate::matrix::echelon_step_spec;
use crate::matrix::echelon_upto_spec;
use crate::matrix::eliminate_below_spec;
use crate::matrix::eliminate_row_spec;
use crate::matrix::find_lead_row_spec;
use crate::matrix::independent_spec;
use crate::matrix::is_grid;
use crate::matrix::lemma_echelon_shape;
use crate::matrix::lemma_find_lead_row_hit;
use crate::matrix::lemma_find_lead_row_range;
use crate::matrix::row_echelon_spec;
use crate::matrix::scale_row_spec;
use crate::matrix::swap_rows_spec;
use crate::lattice::rows_contain_spec;
use crate::lattice::span_acc_spec;
use crate::lattice::span_coeffs_spec;
use crate::lattice::span_spec;
use crate::lattice::span_stage_spec;
use crate::lattice::vec_eq_spec;
use crate::lattice::zero_vec_spec;
use crate::matrix::cofactor_spec;
use crate::matrix::det_spec;
use crate::matrix::det_sum_spec;
use crate::matrix::minor_spec;
use crate::scalar::Scalar;
use crate::utils::add_vec_spec;
use crate::utils::scale_vec_spec;

verus! {

/// The bound under which the exact-integer determinant lemmas hold: with all
/// entries this small, no intermediate product or sum of the 3 by 3 cofactor
/// expansion can wrap.
pub open spec fn entries_small(m: Seq<Seq<i64>>, rows: int, cols: int) -> bool {
    forall|i: int, j: int|
        0 <= i < rows && 0 <= j < cols ==> -1000000 <= #[trigger] m[i][j] <= 1000000
}

/// The exact 2 by 2 determinant of rows `r0 < r1` and columns `c0 < c1` of
/// `m`, over unbounded integers.
pub open spec fn minor2_exact(m: Seq<Seq<i64>>, r0: int, r1: int, c0: int, c1: int) -> int {
    (m[r0][c0] as int) * (m[r1][c1] as int) - (m[r0][c1] as int) * (m[r1][c0] as int)
}

/// The exact 3 by 3 determinant, expanded along the first row over unbounded
/// integers.
pub open spec fn det3_exact(m: Seq<Seq<i64>>) -> int {
    (m[0][0] as int) * minor2_exact(m, 1, 2, 1, 2) - (m[0][1] as int) * minor2_exact(m, 1, 2, 0, 2)
        + (m[0][2] as int) * minor2_exact(m, 1, 2, 0, 1)
}

/// The Laplace expansion of the exact 3 by 3 determinant along row `r`.
pub open spec fn det3_along_row(m: Seq<Seq<i64>>, r: int) -> int {
    let r0 = if r == 0 {
        1int
    } else {
        0int
    };
    let r1 = if r == 2 {
        1int
    } else {
        2int
    };
    let sum = (m[r][0] as int) * minor2_exact(m, r0, r1, 1, 2) - (m[r][1] as int) * minor2_exact(
        m,
        r0,
        r1,
        0,
        2,
    ) + (m[r][2] as int) * minor2_exact(m, r0, r1, 0, 1);
    if r == 1 {
        -sum
    } else {
        sum
    }
}

/// The Laplace expansion of the exact 3 by 3 determinant along column `c`.
pub open spec fn det3_along_col(m: Seq<Seq<i64>>, c: int) -> int {
    let c0 = if c == 0 {
        1int
    } else {
        0int
    };
    let c1 = if c == 2 {
        1int
    } else {
        2int
    };
    let sum = (m[0][c] as int) * minor2_exact(m, 1, 2, c0, c1) - (m[1][c] as int) * minor2_exact(
        m,
        0,
        2,
        c0,
        c1,
    ) + (m[2][c] as int) * minor2_exact(m, 0, 1, c0, c1);
    if c == 1 {
        -sum
    } else {
        sum
    }
}

/// The `n` by `n` identity over exact integers.
pub open spec fn identity_seq(n: int) -> Seq<Seq<i64>> {
    Seq::new(
        n as nat,
        |i: int|
            Seq::new(
                n as nat,
                |j: int|
                    if i == j {
                        1i64
                    } else {
                        0i64
                    },
            ),
    )
}

/// Eliminating below a pivot of the integer identity changes nothing: every
/// entry below a diagonal pivot is zero already.
proof fn lemma_identity_eliminate_below(n: int, p: int, t: int)
    requires
        0 <= p < n,
        p < t,
    ensures
        eliminate_below_spec(identity_seq(n), p, p, t) == identity_seq(n),
    decreases n - t,
{
    let id = identity_seq(n);
    if 0 <= t < n {
        assert(id[t][p] == 0i64);
        assert(eliminate_row_spec(id, p, t, p) == id);
        lemma_identity_eliminate_below(n, p, t + 1);
    }
}

/// One forward-elimination step leaves the integer identity unchanged and
/// advances the lead column: the pivot is already the unit on the diagonal.
proof fn lemma_identity_echelon_upto(n: int, k: int)
    requires
        n >= 1,
        0 <= k <= n,
    ensures
        echelon_upto_spec(identity_seq(n), k) == (identity_seq(n), k),
    decreases k,
{
    let id = identity_seq(n);
    if k > 0 {
        lemma_identity_echelon_upto(n, k - 1);
        let row = k - 1;
        assert(!id[row][row].eq_spec(i64::zero_spec()));
        assert(find_lead_row_spec(id, row, row) == row);
        assert(swap_rows_spec(id, row, row) =~= id);
        let pivot = id[row][row];
        assert(pivot == 1i64);
        let scaled_row = Seq::new(id[row].len(), |j: int| id[row][j].div_spec(pivot));
        assert forall|j: int| 0 <= j < n implies scaled_row[j] == id[row][j] by {
            assert(id[row][j] == 0i64 || id[row][j] == 1i64);
        }
        assert(scaled_row =~= id[row]);
        assert(scale_row_spec(id, row, pivot) =~= id);
        lemma_identity_eliminate_below(n, row, row + 1);
        assert(echelon_step_spec(id, row, row) == (id, row + 1));
    }
}

/// The independence check accepts the integer identity of every size: its
/// row-echelon form is itself, whose bottom-right entry is one.
pub proof fn lemma_identity_independent(n: int)
    requires
        n >= 1,
    ensures
        independent_spec(identity_seq(n), n, n),
{
    lemma_identity_echelon_upto(n, n);
    assert(row_echelon_spec(identity_seq(n)) == identity_seq(n));
    assert(identity_seq(n)[n - 1][n - 1] == 1i64);
}

/// An all-zero row is never modified by eliminating below a pivot row that
/// is not itself: its lead entry is zero, so the elimination skips it, and
/// updates to other rows leave it in place.
proof fn lemma_eliminate_below_keeps_zero_row(
    m: Seq<Seq<i64>>,
    rows: int,
    cols: int,
    p: int,
    lead: int,
    t: int,
    zr: int,
)
    requires
        is_grid(m, rows, cols),
        0 <= p < rows,
        0 <= lead < cols,
        0 <= zr < rows,
        p != zr,
        forall|j: int| 0 <= j < cols ==> #[trigger] m[zr][j] == 0i64,
    ensures
        is_grid(eliminate_below_spec(m, p, lead, t), rows, cols),
        forall|j: int| 0 <= j < cols ==> #[trigger] eliminate_below_spec(m, p, lead, t)[zr][j] == 0i64,
    decreases m.len() - t,
{
    if 0 <= t < m.len() {
        let next = eliminate_row_spec(m, p, t, lead);
        if t == zr {
            assert(m[t][lead] == 0i64);
            assert(next == m);
        } else {
            assert(is_grid(next, rows, cols));
            assert(next[zr] == m[zr]);
        }
        lemma_eliminate_below_keeps_zero_row(next, rows, cols, p, lead, t + 1, zr);
    }
}

/// The whole forward elimination keeps an all-zero last row all zero: the
/// scan never picks it as a pivot row, swaps never move it, and eliminations
/// skip it.
proof fn lemma_echelon_keeps_zero_last_row(m: Seq<Seq<i64>>, rows: int, cols: int, k: int)
    requires
        is_grid(m, rows, cols),
        1 <= rows <= cols,
        0 <= k <= rows,
        forall|j: int| 0 <= j < cols ==> #[trigger] m[rows - 1][j] == 0i64,
    ensures
        forall|j: int|
            0 <= j < cols ==> #[trigger] echelon_upto_spec(m, k).0[rows - 1][j] == 0i64,
    decreases k,
{
    if k > 0 {
        lemma_echelon_keeps_zero_last_row(m, rows, cols, k - 1);
        lemma_echelon_shape(m, rows, cols, k - 1);
        let prev = echelon_upto_spec(m, k - 1);
        let s = prev.0;
        let lead = prev.1;
        let row = k - 1;
        assert(0 <= lead < cols);
        let lr = find_lead_row_spec(s, row, lead);
        lemma_find_lead_row_range(s, row, lead);
        lemma_find_lead_row_hit(s, row, lead);
        if lr < rows {
            assert(lr != rows - 1) by {
                assert(s[rows - 1][lead] == 0i64);
            }
        }
        let swapped = if lr < s.len() {
            swap_rows_spec(s, row, lr)
        } else {
            s
        };
        if row == rows - 1 {
            assert(s[row][lead] == 0i64);
            assert(lr == rows) by {
                if lr < rows {
                    assert(lr == rows - 1);
                }
            }
            assert(swapped == s);
            assert(swapped[row][lead].eq_spec(i64::zero_spec()));
        } else {
            assert(forall|j: int| 0 <= j < cols ==> #[trigger] swapped[rows - 1][j] == 0i64);
            assert(is_grid(swapped, rows, cols));
            if !swapped[row][lead].eq_spec(i64::zero_spec()) {
                let pivot = swapped[row][lead];
                let scaled = scale_row_spec(swapped, row, pivot);
                assert(forall|j: int| 0 <= j < cols ==> #[trigger] scaled[rows - 1][j] == 0i64);
                assert(is_grid(scaled, rows, cols));
                lemma_eliminate_below_keeps_zero_row(
                    scaled,
                    rows,
                    cols,
                    row,
                    lead,
                    row + 1,
                    rows - 1,
                );
            }
        }
    }
}

/// A basis whose last row is all zero fails the independence check: the
/// row-echelon form keeps that zero row at the bottom, so the bottom-right
/// entry is zero.
pub proof fn lemma_zero_last_row_dependent(m: Seq<Seq<i64>>, rows: int, cols: int)
    requires
        is_grid(m, rows, cols),
        1 <= rows <= cols,
        forall|j: int| 0 <= j < cols ==> #[trigger] m[rows - 1][j] == 0i64,
    ensures
        !independent_spec(m, rows, cols),
{
    lemma_echelon_keeps_zero_last_row(m, rows, cols, rows);
    assert(row_echelon_spec(m)[rows - 1][cols - 1] == 0i64);
}

/// With the zero coefficient alone, one staging pass over the single-point
/// set holding the origin stages nothing: the only candidate point is the
/// origin again, which is already present.
proof fn lemma_span_stage_zero(n: int, base: Seq<i64>, s: int)
    requires
        n >= 1,
        base.len() == n,
    ensures
        span_stage_spec(
            seq![zero_vec_spec::<i64>(n)],
            Seq::empty(),
            scale_vec_spec(0, base),
            s,
        ) == Seq::<Seq<i64>>::empty(),
{
    let acc = seq![zero_vec_spec::<i64>(n)];
    let addv = scale_vec_spec(0, base);
    if s == 0 {
        let v = add_vec_spec(acc[0], addv);
        assert forall|k: int| 0 <= k < n implies v[k] == 0i64 by {
            assert(base[k].mul_spec(i64::from_int_spec(0)) == 0i64);
        }
        assert(vec_eq_spec(acc[0], v));
        assert(rows_contain_spec(acc, v));
        assert(span_stage_spec(acc, Seq::<Seq<i64>>::empty(), addv, 1)
            == Seq::<Seq<i64>>::empty());
    }
}

/// With the zero coefficient alone, the accumulated point set never grows
/// past the origin.
proof fn lemma_span_acc_zero(basis: Seq<Seq<i64>>, n: int, b: int)
    requires
        is_grid(basis, n, n),
        n >= 1,
        0 <= b <= n,
    ensures
        span_acc_spec(basis, 0, 1, b) == seq![zero_vec_spec::<i64>(n)],
    decreases b,
{
    if b > 0 {
        lemma_span_acc_zero(basis, n, b - 1);
        let acc = span_acc_spec(basis, 0, 1, b - 1);
        lemma_span_stage_zero(n, basis[b - 1], 0);
        assert(span_coeffs_spec(acc, Seq::empty(), basis[b - 1], 0, 1) == span_coeffs_spec(
            acc,
            Seq::<Seq<i64>>::empty(),
            basis[b - 1],
            1,
            1,
        ));
        assert(acc + Seq::<Seq<i64>>::empty() =~= acc);
    }
}

/// Reducing an integer into the machine range changes nothing when it
/// already lies there.
proof fn lemma_crop_identity(v: int)
    requires
        i64::MIN <= v <= i64::MAX,
    ensures
        vstd::wrapping::i64_specs::signed_crop(v) == v,
{
    let range = 0x1_0000_0000_0000_0000;
    if v >= 0 {
        vstd::arithmetic::div_mod::lemma_small_mod(v as nat, range as nat);
    } else {
        vstd::arithmetic::div_mod::lemma_mod_add_multiples_vanish(v, range);
        vstd::arithmetic::div_mod::lemma_small_mod((v + range) as nat, range as nat);
        assert(v % range == (range + v) % range);
    }
}

/// For small entries the engine's 2 by 2 determinant is the exact integer
/// closed form, and is itself small.
proof fn lemma_det2_exact(m2: Seq<Seq<i64>>)
    requires
        is_grid(m2, 2, 2),
        entries_small(m2, 2, 2),
    ensures
        det_spec(m2) as int == minor2_exact(m2, 0, 1, 0, 1),
        -2000000000000 <= det_spec(m2) as int <= 2000000000000,
{
    let a = m2[0][0] as int;
    let b = m2[0][1] as int;
    let c = m2[1][0] as int;
    let d = m2[1][1] as int;
    assert(-1000000000000 <= a * d <= 1000000000000) by (nonlinear_arith)
        requires
            -1000000 <= a <= 1000000,
            -1000000 <= d <= 1000000,
    ;
    assert(-1000000000000 <= b * c <= 1000000000000) by (nonlinear_arith)
        requires
            -1000000 <= b <= 1000000,
            -1000000 <= c <= 1000000,
    ;
    lemma_crop_identity(a * d);
    lemma_crop_identity(b * c);
}

/// For small entries the engine's 3 by 3 cofactor determinant is the exact
/// integer first-row expansion: no intermediate product, negation or sum
/// wraps.
proof fn lemma_det3_exact(m: Seq<Seq<i64>>)
    requires
        is_grid(m, 3, 3),
        entries_small(m, 3, 3),
    ensures
        det_spec(m) as int == det3_exact(m),
{
    let m0 = minor_spec(m, 0, 0);
    let m1 = minor_spec(m, 0, 1);
    let m2 = minor_spec(m, 0, 2);
    assert(is_grid(m0, 2, 2) && entries_small(m0, 2, 2));
    assert(is_grid(m1, 2, 2) && entries_small(m1, 2, 2));
    assert(is_grid(m2, 2, 2) && entries_small(m2, 2, 2));
    lemma_det2_exact(m0);
    lemma_det2_exact(m1);
    lemma_det2_exact(m2);
    let det0 = det_spec(m0) as int;
    let det1 = det_spec(m1) as int;
    let det2 = det_spec(m2) as int;
    assert(det0 == minor2_exact(m, 1, 2, 1, 2)) by {
        assert(m0[0][0] == m[1][1] && m0[0][1] == m[1][2] && m0[1][0] == m[2][1] && m0[1][1]
            == m[2][2]);
    }
    assert(det1 == minor2_exact(m, 1, 2, 0, 2)) by {
        assert(m1[0][0] == m[1][0] && m1[0][1] == m[1][2] && m1[1][0] == m[2][0] && m1[1][1]
            == m[2][2]);
    }
    assert(det2 == minor2_exact(m, 1, 2, 0, 1)) by {
        assert(m2[0][0] == m[1][0] && m2[0][1] == m[1][1] && m2[1][0] == m[2][0] && m2[1][1]
            == m[2][1]);
    }
    let a = m[0][0] as int;
    let b = m[0][1] as int;
    let c = m[0][2] as int;
    // cofactors: the middle one is negated, and the negation cannot wrap
    assert(cofactor_spec(m, 0, 0) as int == det0);
    assert(cofactor_spec(m, 0, 1) as int == -det1);
    assert(cofactor_spec(m, 0, 2) as int == det2);
    // each first-row term, exactly
    let t0 = a * det0;
    let t1 = b * (-det1);
    let t2 = c * det2;
    assert(-2000000000000000000 <= t0 <= 2000000000000000000) by (nonlinear_arith)
        requires
            -1000000 <= a <= 1000000,
            -2000000000000 <= det0 <= 2000000000000,
            t0 == a * det0,
    ;
    assert(-2000000000000000000 <= t1 <= 2000000000000000000) by (nonlinear_arith)
        requires
            -1000000 <= b <= 1000000,
            -2000000000000 <= det1 <= 2000000000000,
            t1 == b * (-det1),
    ;
    assert(-2000000000000000000 <= t2 <= 2000000000000000000) by (nonlinear_arith)
        requires
            -1000000 <= c <= 1000000,
            -2000000000000 <= det2 <= 2000000000000,
            t2 == c * det2,
    ;
    lemma_crop_identity(t0);
    lemma_crop_identity(t1);
    lemma_crop_identity(t2);
    reveal_with_fuel(det_sum_spec, 5);
    assert(det_sum_spec(m, 1) as int == t0);
    assert(det_sum_spec(m, 2) as int == t0 + t1);
    assert(det_sum_spec(m, 3) as int == t0 + t1 + t2);
    assert(det_spec(m) as int == t0 + t1 + t2);
    assert(t0 + t1 + t2 == det3_exact(m)) by (nonlinear_arith)
        requires
            t0 == a * det0,
            t1 == b * (-det1),
            t2 == c * det2,
            det0 == minor2_exact(m, 1, 2, 1, 2),
            det1 == minor2_exact(m, 1, 2, 0, 2),
            det2 == minor2_exact(m, 1, 2, 0, 1),
            det3_exact(m) == a * minor2_exact(m, 1, 2, 1, 2) - b * minor2_exact(m, 1, 2, 0, 2) + c
                * minor2_exact(m, 1, 2, 0, 1),
    ;
}

/// The six Laplace expansions of a 3 by 3 integer determinant are one
/// polynomial: expanding along any row or any column gives the first-row
/// expansion's value.
proof fn lemma_det3_poly(m: Seq<Seq<i64>>)
    requires
        is_grid(m, 3, 3),
    ensures
        forall|r: int| 0 <= r < 3 ==> #[trigger] det3_along_row(m, r) == det3_exact(m),
        forall|c: int| 0 <= c < 3 ==> #[trigger] det3_along_col(m, c) == det3_exact(m),
{
    let a = m[0][0] as int;
    let b = m[0][1] as int;
    let c = m[0][2] as int;
    let d = m[1][0] as int;
    let e = m[1][1] as int;
    let f = m[1][2] as int;
    let g = m[2][0] as int;
    let h = m[2][1] as int;
    let i = m[2][2] as int;
    // distribute every two-by-two cofactor product into monomials, each
    // written with its factors in one fixed order, so that the six
    // expansions compare term by term
    assert(a * (e * i - f * h) == a * e * i - a * f * h) by (nonlinear_arith);
    assert(b * (d * i - f * g) == b * d * i - b * f * g) by (nonlinear_arith);
    assert(c * (d * h - e * g) == c * d * h - c * e * g) by (nonlinear_arith);
    assert(d * (b * i - c * h) == b * d * i - c * d * h) by (nonlinear_arith);
    assert(e * (a * i - c * g) == a * e * i - c * e * g) by (nonlinear_arith);
    assert(f * (a * h - b * g) == a * f * h - b * f * g) by (nonlinear_arith);
    assert(g * (b * f - c * e) == b * f * g - c * e * g) by (nonlinear_arith);
    assert(h * (a * f - c * d) == a * f * h - c * d * h) by (nonlinear_arith);
    assert(i * (a * e - b * d) == a * e * i - b * d * i) by (nonlinear_arith);
}

/// Cofactor expansion is row- and column-invariant on 3 by 3 integer
/// matrices: the engine's determinant (first-row expansion) equals the
/// Laplace expansion along any row and any column, whenever the entries are
/// small enough that no intermediate step wraps.
pub proof fn lemma_det3_laplace_invariant(m: Seq<Seq<i64>>, r: int, c: int)
    requires
        is_grid(m, 3, 3),
        entries_small(m, 3, 3),
        0 <= r < 3,
        0 <= c < 3,
    ensures
        det_spec(m) as int == det3_along_row(m, r),
        det_spec(m) as int == det3_along_col(m, c),
{
    lemma_det3_exact(m);
    lemma_det3_poly(m);
}

/// Over exact integers, a span whose coefficient range holds only zero is
/// exactly the single-point set containing the origin.
pub proof fn lemma_span_zero_coefficient(basis: Seq<Seq<i64>>, n: int)
    requires
        is_grid(basis, n, n),
        n >= 1,
    ensures
        span_spec(basis, 0, 1) == seq![zero_vec_spec::<i64>(n)],
{
    lemma_span_acc_zero(basis, n, n);
}

} // verus!
