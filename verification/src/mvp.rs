//! The global minimum-variance portfolio.
//!
//! The closed form is `w = inv(C) 1 / (1' inv(C) 1)`. The solver only
//! searches for the candidate; the function then certifies, by exact
//! arithmetic, the two properties that characterize the minimum-variance
//! weights of a nonsingular covariance matrix and that the contract states:
//! the weights sum to one, and `C w` has all entries equal (proportional to
//! the all-ones vector) and nonzero. Any failure of solving or certification
//! reports a singular matrix.

use vstd::prelude::*;

verus! {

use crate::covariance::CovarianceMatrix;
use crate::errors::OptimizerError;
use crate::linalg::{
    rat_values, rat_sum, rat_dot, rat_matvec, rat_rows, rat_seq_wf, rat_pointwise_mul,
    lemma_rat_sum_wf, lemma_rat_sum_single, lemma_rat_sum_const,
    sum_ratios, matvec_ratios, ratios_wf,
};
use crate::rational::{
    Rat, Ratio, rat_eq, rat_wf, rat_one, rat_zero, rat_mul, rat_div, rat_of_int,
    lemma_rat_eq_sym, lemma_rat_eq_trans, lemma_rat_ops_wf, lemma_rat_mul_congr,
};

/// `cols` is a right inverse of the matrix with the given rows: the matrix
/// product of the rows with the columns is the identity, entry for entry.
pub open spec fn right_inverse_of(rows: Seq<Seq<Rat>>, cols: Seq<Seq<Rat>>) -> bool {
    &&& cols.len() == rows.len()
    &&& forall|j: int| 0 <= j < cols.len() ==> (#[trigger] cols[j]).len() == rows.len()
    &&& forall|i: int, j: int|
        0 <= i < rows.len() && 0 <= j < rows.len() ==> rat_eq(
            #[trigger] rat_dot(rows[i], cols[j]),
            if i == j {
                rat_one()
            } else {
                rat_zero()
            },
        )
}

/// The square matrix with the given rows is invertible.
pub open spec fn has_right_inverse(rows: Seq<Seq<Rat>>) -> bool {
    exists|cols: Seq<Seq<Rat>>| #[trigger] right_inverse_of(rows, cols)
}

/// Candidate weights `x / sum(x)` with `x` solving `C x = 1`, certified.
///
/// A success carries a certified right inverse of `C`, so a singular
/// matrix — one with no inverse — is never accepted: it fails, with
/// `SingularCovariance` unless checked arithmetic gives out first.
pub fn calcalate_mvp(cov: &CovarianceMatrix) -> (r: Result<Vec<Ratio>, OptimizerError>)
    requires
        cov.wf(),
        cov.n_assets >= 1,
    ensures
        r matches Ok(w) ==> {
            &&& w@.len() == cov.n_assets
            &&& rat_eq(rat_sum(rat_values(w@)), rat_one())
            &&& forall|i: int| 0 <= i < cov.n_assets ==> rat_eq(
                #[trigger] rat_matvec(rat_rows(cov.entries@), rat_values(w@))[i],
                rat_matvec(rat_rows(cov.entries@), rat_values(w@))[0],
            )
            &&& !rat_eq(rat_matvec(rat_rows(cov.entries@), rat_values(w@))[0], rat_zero())
        },
        r is Ok ==> has_right_inverse(rat_rows(cov.entries@)),
        r matches Err(e) ==> e == OptimizerError::SingularCovariance || e
            == OptimizerError::ArithmeticOverflow,
{
    let n = cov.n_assets;
    let mut ones: Vec<Ratio> = Vec::new();
    let mut i: usize = 0;
    while i < n
        invariant
            0 <= i <= n,
            ones@.len() == i,
        decreases n - i,
    {
        ones.push(Ratio::one());
        i += 1;
    }
    let x = match crate::solve::gaussian_solve(&cov.entries, &ones) {
        Ok(v) => v,
        Err(e) => { return Err(e); },
    };
    let s = match sum_ratios(&x) {
        Some(q) => q,
        None => { return Err(OptimizerError::ArithmeticOverflow); },
    };
    if s.is_zero() {
        return Err(OptimizerError::SingularCovariance);
    }
    let mut w: Vec<Ratio> = Vec::new();
    let mut k: usize = 0;
    while k < n
        invariant
            n == x@.len(),
            0 <= k <= n,
            w@.len() == k,
        decreases n - k,
    {
        let wk = match x[k].div(&s) {
            Some(q) => q,
            None => { return Err(OptimizerError::ArithmeticOverflow); },
        };
        w.push(wk);
        k += 1;
    }
    // Certify the contract on the candidate by exact arithmetic.
    let sw = match sum_ratios(&w) {
        Some(q) => q,
        None => { return Err(OptimizerError::ArithmeticOverflow); },
    };
    let one = Ratio::one();
    let sum_is_one = match sw.same_value(&one) {
        Some(b) => b,
        None => { return Err(OptimizerError::ArithmeticOverflow); },
    };
    if !sum_is_one {
        return Err(OptimizerError::SingularCovariance);
    }
    let z = match matvec_ratios(&cov.entries, &w) {
        Some(v) => v,
        None => { return Err(OptimizerError::ArithmeticOverflow); },
    };
    let z0 = z[0];
    if z0.is_zero() {
        return Err(OptimizerError::SingularCovariance);
    }
    let mut j: usize = 1;
    while j < n
        invariant
            n == z@.len(),
            n >= 1,
            z0 == z@[0],
            1 <= j <= n,
            forall|u: int| 0 <= u < j ==> rat_eq((#[trigger] z@[u])@, z0@),
        decreases n - j,
    {
        let equal = match z[j].same_value(&z0) {
            Some(b) => b,
            None => { return Err(OptimizerError::ArithmeticOverflow); },
        };
        if !equal {
            return Err(OptimizerError::SingularCovariance);
        }
        j += 1;
    }
    ratios_wf(&w);
    crate::linalg::rows_wf(&cov.entries);
    proof {
        use_type_invariant(&sw);
        use_type_invariant(&z0);
        let wv = rat_values(w@);
        let mv = rat_matvec(rat_rows(cov.entries@), wv);
        // The weights sum to one.
        lemma_rat_eq_sym(sw@, rat_sum(wv));
        lemma_rat_eq_trans(rat_sum(wv), sw@, rat_one());
        // Every entry of C w equals the first, which is nonzero.
        assert forall|u: int| 0 <= u < cov.n_assets implies rat_eq(#[trigger] mv[u], mv[0]) by {
            assert(rat_eq(rat_values(z@)[u], mv[u]));
            assert(rat_eq(rat_values(z@)[0], mv[0]));
            assert(rat_values(z@)[u] == z@[u]@);
            assert(rat_values(z@)[0] == z0@);
            assert(rat_eq(z@[u]@, z0@));
            lemma_rat_eq_sym(mv[u], z@[u]@);
            lemma_rat_eq_trans(mv[u], z@[u]@, z0@);
            lemma_rat_eq_sym(z0@, mv[0]);
            lemma_rat_eq_trans(mv[u], z0@, mv[0]);
        }
        assert(!rat_eq(mv[0], rat_zero())) by {
            if rat_eq(mv[0], rat_zero()) {
                assert(rat_eq(rat_values(z@)[0], mv[0]));
                assert(rat_values(z@)[0] == z0@);
                assert(rat_rows(cov.entries@)[0] == rat_values(cov.entries@[0]@));
                crate::covariance::lemma_dot_wf(rat_rows(cov.entries@)[0], wv);
                assert(mv[0] == rat_dot(rat_rows(cov.entries@)[0], wv));
                lemma_rat_eq_trans(z0@, mv[0], rat_zero());
            }
        }
    }
    // Certify that the matrix is invertible: solve for each column of the
    // inverse and check the product against the identity exactly.
    let ghost rowsg = rat_rows(cov.entries@);
    proof {
        assert forall|k2: int| 0 <= k2 < n implies rat_seq_wf(#[trigger] rowsg[k2]) by {
            assert(rowsg[k2] == rat_values(cov.entries@[k2]@));
        }
    }
    let one_c = Ratio::one();
    let zero_c = Ratio::zero();
    let ghost mut gcols: Seq<Seq<Rat>> = Seq::empty();
    let mut jcol: usize = 0;
    while jcol < n
        invariant
            n == cov.n_assets,
            cov.wf(),
            n >= 1,
            rowsg == rat_rows(cov.entries@),
            forall|k2: int| 0 <= k2 < n ==> rat_seq_wf(#[trigger] rowsg[k2]),
            one_c@ == rat_one(),
            zero_c@ == rat_zero(),
            0 <= jcol <= n,
            gcols.len() == jcol,
            forall|jj: int| 0 <= jj < jcol ==> (#[trigger] gcols[jj]).len() == n,
            forall|i2: int, jj: int|
                0 <= i2 < n && 0 <= jj < jcol ==> rat_eq(
                    #[trigger] rat_dot(rowsg[i2], gcols[jj]),
                    if i2 == jj {
                        rat_one()
                    } else {
                        rat_zero()
                    },
                ),
        decreases n - jcol,
    {
        let mut e: Vec<Ratio> = Vec::new();
        let mut k2: usize = 0;
        while k2 < n
            invariant
                0 <= k2 <= n,
                e@.len() == k2,
            decreases n - k2,
        {
            if k2 == jcol {
                e.push(Ratio::one());
            } else {
                e.push(Ratio::zero());
            }
            k2 += 1;
        }
        let xcol = match crate::solve::gaussian_solve(&cov.entries, &e) {
            Ok(v) => v,
            Err(err) => { return Err(err); },
        };
        let y = match matvec_ratios(&cov.entries, &xcol) {
            Some(v) => v,
            None => { return Err(OptimizerError::ArithmeticOverflow); },
        };
        let mut i2: usize = 0;
        while i2 < n
            invariant
                n == cov.n_assets,
                cov.wf(),
                rowsg == rat_rows(cov.entries@),
                jcol < n,
                one_c@ == rat_one(),
                zero_c@ == rat_zero(),
                y@.len() == n,
                forall|u: int| 0 <= u < n ==> rat_eq(
                    #[trigger] rat_values(y@)[u],
                    rat_matvec(rowsg, rat_values(xcol@))[u],
                ),
                rat_seq_wf(rat_values(y@)),
                0 <= i2 <= n,
                forall|u: int| 0 <= u < i2 ==> rat_eq(
                    (#[trigger] y@[u])@,
                    if u == jcol {
                        rat_one()
                    } else {
                        rat_zero()
                    },
                ),
            decreases n - i2,
        {
            let expect = if i2 == jcol {
                &one_c
            } else {
                &zero_c
            };
            let okv = match y[i2].same_value(expect) {
                Some(b) => b,
                None => { return Err(OptimizerError::ArithmeticOverflow); },
            };
            if !okv {
                return Err(OptimizerError::SingularCovariance);
            }
            proof {
                assert(rat_values(y@)[i2 as int] == y@[i2 as int]@);
            }
            i2 += 1;
        }
        let ghost old_gcols = gcols;
        proof {
            assert forall|u: int| 0 <= u < n implies rat_eq(
                #[trigger] rat_dot(rowsg[u], rat_values(xcol@)),
                if u == jcol {
                    rat_one()
                } else {
                    rat_zero()
                },
            ) by {
                assert(rat_matvec(rowsg, rat_values(xcol@))[u] == rat_dot(
                    rowsg[u],
                    rat_values(xcol@),
                ));
                lemma_rat_eq_sym(rat_values(y@)[u], rat_matvec(rowsg, rat_values(xcol@))[u]);
                assert(rat_values(y@)[u] == y@[u]@);
                lemma_rat_eq_trans(
                    rat_dot(rowsg[u], rat_values(xcol@)),
                    y@[u]@,
                    if u == jcol {
                        rat_one()
                    } else {
                        rat_zero()
                    },
                );
            }
            gcols = gcols.push(rat_values(xcol@));
            assert forall|i3: int, jj: int|
                0 <= i3 < n && 0 <= jj < jcol + 1 implies rat_eq(
                #[trigger] rat_dot(rowsg[i3], gcols[jj]),
                if i3 == jj {
                    rat_one()
                } else {
                    rat_zero()
                },
            ) by {
                if jj < jcol as int {
                    assert(gcols[jj] == old_gcols[jj]);
                } else {
                    assert(gcols[jj] == rat_values(xcol@));
                }
            }
        }
        jcol += 1;
    }
    proof {
        assert(right_inverse_of(rowsg, gcols));
        assert(has_right_inverse(rowsg));
    }
    Ok(w)
}

/// From `s * a = c` with `s` nonzero, `a = c / s`.
proof fn lemma_mul_cancel(s: Rat, a: Rat, c: Rat)
    requires
        rat_eq(rat_mul(s, a), c),
        rat_wf(s),
        rat_wf(a),
        s.n != 0,
    ensures
        rat_eq(a, rat_div(c, s)),
{
    if s.n > 0 {
        assert(a.n * (c.d * s.n) == (c.n * s.d) * a.d) by (nonlinear_arith)
            requires (s.n * a.n) * c.d == c.n * (s.d * a.d);
    } else {
        assert(a.n * (c.d * -s.n) == (c.n * -s.d) * a.d) by (nonlinear_arith)
            requires (s.n * a.n) * c.d == c.n * (s.d * a.d);
    }
}

/// On a covariance matrix that is a nonzero multiple `s` of the identity,
/// any weights that sum to one and make `C w` proportional to the all-ones
/// vector are exactly the uniform vector `1 / n`.
pub proof fn lemma_uniform_on_scaled_identity(rows: Seq<Seq<Rat>>, w: Seq<Rat>, s: Rat)
    requires
        rows.len() == w.len(),
        w.len() >= 1,
        forall|i: int| 0 <= i < rows.len() ==> (#[trigger] rows[i]).len() == rows.len(),
        rat_seq_wf(w),
        forall|i: int| 0 <= i < rows.len() ==> rat_seq_wf(#[trigger] rows[i]),
        rat_wf(s),
        s.n != 0,
        forall|i: int, j: int|
            0 <= i < rows.len() && 0 <= j < rows.len() ==> rat_eq(
                #[trigger] rows[i][j],
                if i == j { s } else { rat_zero() },
            ),
        rat_eq(rat_sum(w), rat_one()),
        forall|i: int| 0 <= i < rows.len() ==> rat_eq(
            #[trigger] rat_matvec(rows, w)[i],
            rat_matvec(rows, w)[0],
        ),
    ensures
        forall|i: int| 0 <= i < w.len() ==> rat_eq(
            #[trigger] w[i],
            Rat { n: 1, d: w.len() as int },
        ),
{
    let n = w.len() as int;
    let mv = rat_matvec(rows, w);
    let c = mv[0];
    // Each row's product with w is s * w[i].
    assert forall|i: int| 0 <= i < n implies rat_eq(#[trigger] rat_mul(s, w[i]), mv[i]) by {
        let pm = rat_pointwise_mul(rows[i], w);
        assert forall|jj: int| 0 <= jj < n && jj != i implies rat_eq(
            #[trigger] pm[jj],
            rat_zero(),
        ) by {
            assert(rat_eq(rows[i][jj], rat_zero()));
            assert(rows[i][jj].n == 0) by (nonlinear_arith)
                requires rows[i][jj].n * 1 == 0 * rows[i][jj].d;
            assert(pm[jj] == rat_mul(rows[i][jj], w[jj]));
            assert(rows[i][jj].n * w[jj].n == 0) by (nonlinear_arith)
                requires rows[i][jj].n == 0;
            assert(0 * (rows[i][jj].d * w[jj].d) == 0) by (nonlinear_arith);
        }
        assert(rat_eq(rows[i][i], s));
        lemma_rat_mul_congr(rows[i][i], w[i], s, w[i]);
        lemma_rat_ops_wf(s, w[i]);
        lemma_rat_sum_single(pm, i, rat_mul(s, w[i]));
        // mv[i] is definitionally the sum of pm.
        assert(mv[i] == rat_sum(pm));
        lemma_rat_eq_sym(rat_sum(pm), rat_mul(s, w[i]));
        assert forall|jj: int| 0 <= jj < n implies rat_wf(#[trigger] pm[jj]) by {
            lemma_rat_ops_wf(rows[i][jj], w[jj]);
        }
        lemma_rat_sum_wf(pm);
        lemma_rat_eq_trans(rat_mul(s, w[i]), rat_sum(pm), mv[i]);
    }
    // c is well formed.
    let pm0 = rat_pointwise_mul(rows[0], w);
    assert forall|jj: int| 0 <= jj < n implies rat_wf(#[trigger] pm0[jj]) by {
        lemma_rat_ops_wf(rows[0][jj], w[jj]);
    }
    lemma_rat_sum_wf(pm0);
    assert(c == rat_sum(pm0));
    // Every weight equals c / s.
    let dcs = rat_div(c, s);
    lemma_rat_ops_wf(c, s);
    assert forall|i: int| 0 <= i < n implies rat_eq(#[trigger] w[i], dcs) by {
        let pm = rat_pointwise_mul(rows[i], w);
        assert forall|jj: int| 0 <= jj < n implies rat_wf(#[trigger] pm[jj]) by {
            lemma_rat_ops_wf(rows[i][jj], w[jj]);
        }
        lemma_rat_sum_wf(pm);
        assert(mv[i] == rat_sum(pm));
        lemma_rat_ops_wf(s, w[i]);
        lemma_rat_eq_trans(rat_mul(s, w[i]), mv[i], c);
        lemma_mul_cancel(s, w[i], c);
    }
    // So the sum is n * (c / s), and it equals one.
    lemma_rat_sum_const(w, dcs);
    lemma_rat_sum_wf(w);
    lemma_rat_eq_sym(rat_sum(w), rat_mul(rat_of_int(n), dcs));
    lemma_rat_eq_trans(rat_mul(rat_of_int(n), dcs), rat_sum(w), rat_one());
    // Hence c / s = 1 / n.
    assert(dcs.n * n == 1 * dcs.d) by (nonlinear_arith)
        requires (n * dcs.n) * 1 == 1 * (1 * dcs.d);
    assert(rat_eq(dcs, Rat { n: 1, d: n }));
    // And every weight equals 1 / n.
    lemma_rat_ops_wf(c, s);
    assert forall|i: int| 0 <= i < n implies rat_eq(#[trigger] w[i], Rat { n: 1, d: n }) by {
        lemma_rat_eq_trans(w[i], dcs, Rat { n: 1, d: n });
    }
}

} // verus!
