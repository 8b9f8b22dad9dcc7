//! The target-return-constrained mean-variance program.
//!
//! For weights free in sign, minimize `(1/2) w' C w` subject to the
//! full-investment equality `1' w = 1` and the return inequality
//! `mu' w >= target`. A solution is certified through its Karush-Kuhn-Tucker
//! witness: multipliers `lam` for the equality and `gam >= 0` for the
//! inequality with `C w = lam 1 + gam mu`, and `mu' w = target` whenever
//! `gam` is positive. For a positive semidefinite `C` such a witness makes
//! the weights a global optimum, so the contract carries the witness rather
//! than an unverifiable convergence claim. Candidates come from exact
//! elimination: the active-constraint solution when its multiplier sign
//! allows, the minimum-variance weights otherwise.

use vstd::prelude::*;

verus! {

use crate::covariance::CovarianceMatrix;
use crate::errors::OptimizerError;
use crate::linalg::{
    rat_values, rat_sum, rat_dot, rat_matvec, rat_rows, rat_seq_wf,
    sum_ratios, dot_ratios, matvec_ratios, ratios_wf, rows_wf, copy_row,
};
use crate::rational::{
    Rat, Ratio, rat_eq, rat_wf, rat_le, rat_lt, rat_one, rat_zero, rat_add, rat_mul, rat_modest,
    lemma_rat_eq_sym, lemma_rat_eq_trans, lemma_rat_ops_wf, lemma_rat_le_congr,
    lemma_rat_add_congr, lemma_rat_order_trans,
};

/// One solved point of the efficient frontier.
///
/// The risk of the point is the square root of `variance`; the square root
/// of a rational is rarely rational, so the exact variance is carried and
/// displays take the root.
#[derive(Debug, Clone)]
pub struct FrontierPoint {
    pub achieved_return: Ratio,
    pub variance: Ratio,
    pub weights: Vec<Ratio>,
}

/// A Karush-Kuhn-Tucker witness for the weights `w` at `target`.
///
/// The stationarity equation `C w = lam 1 + gam mu` is the first-order
/// optimality condition of the program for a *symmetric* matrix; the
/// covariance matrices this pipeline produces are exactly symmetric, and on
/// a non-symmetric matrix the witness certifies feasibility but not
/// optimality.
pub open spec fn kkt_certificate(
    mu: Seq<Rat>,
    rows: Seq<Seq<Rat>>,
    w: Seq<Rat>,
    target: Rat,
    lam: Rat,
    gam: Rat,
) -> bool {
    &&& rat_wf(lam)
    &&& rat_wf(gam)
    &&& rat_le(rat_zero(), gam)
    &&& forall|i: int| 0 <= i < rows.len() ==> rat_eq(
        #[trigger] rat_matvec(rows, w)[i],
        rat_add(lam, rat_mul(gam, mu[i])),
    )
    &&& (rat_lt(rat_zero(), gam) ==> rat_eq(rat_dot(mu, w), target))
}

/// The point solves the program for `target`: fully invested, meeting the
/// target, with exact return and variance, and a KKT witness.
pub open spec fn efficient_point(
    mu: Seq<Rat>,
    rows: Seq<Seq<Rat>>,
    p: FrontierPoint,
    target: Rat,
) -> bool {
    let w = rat_values(p.weights@);
    &&& p.weights@.len() == mu.len()
    &&& mu.len() == rows.len()
    &&& rat_eq(p.achieved_return@, rat_dot(mu, w))
    &&& rat_eq(p.variance@, rat_dot(w, rat_matvec(rows, w)))
    &&& rat_eq(rat_sum(w), rat_one())
    &&& rat_le(target, rat_dot(mu, w))
    &&& exists|lam: Rat, gam: Rat| kkt_certificate(mu, rows, w, target, lam, gam)
}

/// The matrix has no direction of negative quadratic form.
pub open spec fn is_psd(rows: Seq<Seq<Rat>>) -> bool {
    forall|v: Seq<Rat>|
        v.len() == rows.len() && rat_seq_wf(v) ==> rat_le(
            rat_zero(),
            #[trigger] rat_dot(v, rat_matvec(rows, v)),
        )
}

/// For a positive semidefinite matrix, the variance of every certified
/// point is nonnegative, so its square root — the point's risk — is real.
pub proof fn lemma_variance_nonneg(
    mu: Seq<Rat>,
    rows: Seq<Seq<Rat>>,
    p: FrontierPoint,
    target: Rat,
)
    requires
        efficient_point(mu, rows, p, target),
        is_psd(rows),
        rat_seq_wf(rat_values(p.weights@)),
        forall|i: int| 0 <= i < rows.len() ==> rat_seq_wf(#[trigger] rows[i]),
        forall|i: int| 0 <= i < rows.len() ==> (#[trigger] rows[i]).len() == rows.len(),
        rat_wf(p.variance@),
    ensures
        rat_le(rat_zero(), p.variance@),
{
    let w = rat_values(p.weights@);
    let mv = rat_matvec(rows, w);
    assert(rat_le(rat_zero(), rat_dot(w, mv)));
    assert forall|i: int| 0 <= i < mv.len() implies rat_wf(#[trigger] mv[i]) by {
        crate::covariance::lemma_dot_wf(rows[i], w);
    }
    crate::covariance::lemma_dot_wf(w, mv);
    lemma_rat_eq_sym(p.variance@, rat_dot(w, mv));
    lemma_rat_le_congr(rat_zero(), rat_dot(w, mv), rat_zero(), p.variance@);
}

/// Certify a candidate: every clause of [`efficient_point`] is checked by
/// exact arithmetic on the candidate before the point is returned.
fn certify_point(
    mu: &Vec<Ratio>,
    cov: &CovarianceMatrix,
    target: &Ratio,
    w: Vec<Ratio>,
    lam: Ratio,
    gam: Ratio,
) -> (r: Result<FrontierPoint, OptimizerError>)
    requires
        cov.wf(),
        mu@.len() == cov.n_assets,
        w@.len() == cov.n_assets,
    ensures
        r matches Ok(p) ==> efficient_point(
            rat_values(mu@),
            rat_rows(cov.entries@),
            p,
            target@,
        ),
        r matches Err(e) ==> e == OptimizerError::OptimizationFailed || e
            == OptimizerError::ArithmeticOverflow,
{
    let n = cov.n_assets;
    let ghost muv = rat_values(mu@);
    let ghost rows = rat_rows(cov.entries@);
    let ghost wv = rat_values(w@);
    ratios_wf(mu);
    ratios_wf(&w);
    rows_wf(&cov.entries);
    proof {
        use_type_invariant(target);
        use_type_invariant(&lam);
        use_type_invariant(&gam);
    }
    // Fully invested.
    let sw = match sum_ratios(&w) {
        Some(q) => q,
        None => { return Err(OptimizerError::ArithmeticOverflow); },
    };
    let one = Ratio::one();
    match sw.same_value(&one) {
        Some(true) => {},
        Some(false) => { return Err(OptimizerError::OptimizationFailed); },
        None => { return Err(OptimizerError::ArithmeticOverflow); },
    }
    proof {
        use_type_invariant(&sw);
        lemma_rat_eq_sym(sw@, rat_sum(wv));
        lemma_rat_eq_trans(rat_sum(wv), sw@, rat_one());
    }
    // Achieved return meets the target.
    let ret = match dot_ratios(mu, &w) {
        Some(q) => q,
        None => { return Err(OptimizerError::ArithmeticOverflow); },
    };
    match target.le(&ret) {
        Some(true) => {},
        Some(false) => { return Err(OptimizerError::OptimizationFailed); },
        None => { return Err(OptimizerError::ArithmeticOverflow); },
    }
    proof {
        use_type_invariant(&ret);
        crate::covariance::lemma_dot_wf(muv, wv);
        lemma_rat_le_congr(target@, ret@, target@, rat_dot(muv, wv));
    }
    // Stationarity: C w = lam 1 + gam mu, entry for entry.
    let z = match matvec_ratios(&cov.entries, &w) {
        Some(v) => v,
        None => { return Err(OptimizerError::ArithmeticOverflow); },
    };
    let mut i: usize = 0;
    while i < n
        invariant
            n == cov.n_assets,
            cov.wf(),
            mu@.len() == n,
            w@.len() == n,
            muv == rat_values(mu@),
            rows == rat_rows(cov.entries@),
            wv == rat_values(w@),
            z@.len() == n,
            forall|k: int| 0 <= k < n ==> rat_eq(
                #[trigger] rat_values(z@)[k],
                rat_matvec(rows, wv)[k],
            ),
            rat_seq_wf(rat_values(z@)),
            rat_wf(lam@),
            rat_wf(gam@),
            0 <= i <= n,
            forall|k: int| 0 <= k < i ==> rat_eq(
                #[trigger] rat_matvec(rows, wv)[k],
                rat_add(lam@, rat_mul(gam@, muv[k])),
            ),
        decreases n - i,
    {
        let gm = match gam.mul(&mu[i]) {
            Some(q) => q,
            None => { return Err(OptimizerError::ArithmeticOverflow); },
        };
        let rhs = match lam.add(&gm) {
            Some(q) => q,
            None => { return Err(OptimizerError::ArithmeticOverflow); },
        };
        let zi = z[i];
        match zi.same_value(&rhs) {
            Some(true) => {},
            Some(false) => { return Err(OptimizerError::OptimizationFailed); },
            None => { return Err(OptimizerError::ArithmeticOverflow); },
        }
        proof {
            use_type_invariant(&gm);
            use_type_invariant(&rhs);
            use_type_invariant(&zi);
            let goal = rat_add(lam@, rat_mul(gam@, muv[i as int]));
            lemma_rat_add_congr(lam@, gm@, lam@, rat_mul(gam@, muv[i as int]));
            lemma_rat_ops_wf(lam@, gm@);
            lemma_rat_eq_trans(rhs@, rat_add(lam@, gm@), goal);
            // z[i] equals rhs, and the matrix-vector entry equals z[i].
            assert(rat_values(z@)[i as int] == zi@);
            lemma_rat_eq_sym(rat_values(z@)[i as int], rat_matvec(rows, wv)[i as int]);
            lemma_rat_eq_trans(rat_matvec(rows, wv)[i as int], zi@, rhs@);
            lemma_rat_eq_trans(rat_matvec(rows, wv)[i as int], rhs@, goal);
        }
        i += 1;
    }
    // The inequality multiplier is nonnegative.
    let zero = Ratio::zero();
    match zero.le(&gam) {
        Some(true) => {},
        Some(false) => { return Err(OptimizerError::OptimizationFailed); },
        None => { return Err(OptimizerError::ArithmeticOverflow); },
    }
    // Complementary slackness: a positive multiplier pins the return.
    if !gam.is_zero() {
        match ret.same_value(target) {
            Some(true) => {},
            Some(false) => { return Err(OptimizerError::OptimizationFailed); },
            None => { return Err(OptimizerError::ArithmeticOverflow); },
        }
        proof {
            use_type_invariant(&ret);
            lemma_rat_eq_sym(ret@, rat_dot(muv, wv));
            lemma_rat_eq_trans(rat_dot(muv, wv), ret@, target@);
        }
    }
    // Exact variance of the candidate.
    let var = match dot_ratios(&w, &z) {
        Some(q) => q,
        None => { return Err(OptimizerError::ArithmeticOverflow); },
    };
    proof {
        use_type_invariant(&var);
        crate::linalg::lemma_rat_dot_congr(wv, rat_values(z@), wv, rat_matvec(rows, wv));
        crate::covariance::lemma_dot_wf(wv, rat_values(z@));
        lemma_rat_eq_trans(
            var@,
            rat_dot(wv, rat_values(z@)),
            rat_dot(wv, rat_matvec(rows, wv)),
        );
    }
    let p = FrontierPoint { achieved_return: ret, variance: var, weights: w };
    proof {
        assert(kkt_certificate(muv, rows, wv, target@, lam@, gam@));
        assert(efficient_point(muv, rows, p, target@));
    }
    Ok(p)
}

/// Fall back to the minimum-variance weights `a / sum(a)`, whose witness
/// has a zero inequality multiplier.
fn finish_minimum_variance(
    mu: &Vec<Ratio>,
    cov: &CovarianceMatrix,
    target: &Ratio,
    a_sol: &Vec<Ratio>,
    sa: &Ratio,
) -> (r: Result<FrontierPoint, OptimizerError>)
    requires
        cov.wf(),
        mu@.len() == cov.n_assets,
        a_sol@.len() == cov.n_assets,
    ensures
        r matches Ok(p) ==> efficient_point(
            rat_values(mu@),
            rat_rows(cov.entries@),
            p,
            target@,
        ),
        r matches Err(e) ==> e == OptimizerError::OptimizationFailed || e
            == OptimizerError::ArithmeticOverflow,
{
    let n = cov.n_assets;
    if sa.is_zero() {
        return Err(OptimizerError::OptimizationFailed);
    }
    let lam = match Ratio::one().div(sa) {
        Some(q) => q,
        None => { return Err(OptimizerError::ArithmeticOverflow); },
    };
    let mut w: Vec<Ratio> = Vec::new();
    let mut i: usize = 0;
    while i < n
        invariant
            n == a_sol@.len(),
            0 <= i <= n,
            w@.len() == i,
        decreases n - i,
    {
        let wi = match a_sol[i].div(sa) {
            Some(q) => q,
            None => { return Err(OptimizerError::ArithmeticOverflow); },
        };
        w.push(wi);
        i += 1;
    }
    certify_point(mu, cov, target, w, lam, Ratio::zero())
}

/// Solve the target-return-constrained program for one target.
///
/// A target strictly above every expected return is rejected as infeasible
/// before any solving; a successful result carries its KKT witness.
pub fn optimize_portfolio(
    expected_returns: &Vec<Ratio>,
    cov_matrix: &CovarianceMatrix,
    target_return: &Ratio,
) -> (r: Result<FrontierPoint, OptimizerError>)
    requires
        cov_matrix.wf(),
        expected_returns@.len() == cov_matrix.n_assets,
        cov_matrix.n_assets >= 1,
    ensures
        r matches Ok(p) ==> efficient_point(
            rat_values(expected_returns@),
            rat_rows(cov_matrix.entries@),
            p,
            target_return@,
        ),
        (forall|i: int| 0 <= i < expected_returns@.len() ==> rat_lt(
            #[trigger] rat_values(expected_returns@)[i],
            target_return@,
        )) ==> r is Err,
        r matches Err(e) && e == OptimizerError::OptimizationInfeasible ==> forall|i: int|
            0 <= i < expected_returns@.len() ==> rat_lt(
                #[trigger] rat_values(expected_returns@)[i],
                target_return@,
            ),
        r matches Err(e) ==> e == OptimizerError::OptimizationInfeasible || e
            == OptimizerError::OptimizationFailed || e == OptimizerError::ArithmeticOverflow,
        rat_modest(target_return@) && (forall|i: int|
            0 <= i < expected_returns@.len() ==> rat_modest(
                #[trigger] rat_values(expected_returns@)[i],
            )) && (forall|i: int|
            0 <= i < expected_returns@.len() ==> rat_lt(
                #[trigger] rat_values(expected_returns@)[i],
                target_return@,
            )) ==> r == Err::<FrontierPoint, OptimizerError>(
            OptimizerError::OptimizationInfeasible,
        ),
{
    let n = cov_matrix.n_assets;
    let mu = expected_returns;
    let ghost muv = rat_values(mu@);
    ratios_wf(mu);
    proof {
        use_type_invariant(target_return);
    }
    // The largest expected return bounds what any target may ask for.
    let mut mx = mu[0];
    proof {
        use_type_invariant(&mx);
    }
    let mut i: usize = 1;
    while i < n
        invariant
            n == mu@.len(),
            mu == expected_returns,
            muv == rat_values(mu@),
            rat_seq_wf(muv),
            1 <= i <= n,
            forall|k: int| 0 <= k < i ==> rat_le(#[trigger] muv[k], mx@),
            exists|k: int| 0 <= k < i && mu@[k] == mx,
            rat_wf(mx@),
        decreases n - i,
    {
        let c = mu[i];
        let keep = match c.le(&mx) {
            Some(b) => b,
            None => {
                proof {
                    if forall|k: int| 0 <= k < expected_returns@.len() ==> rat_modest(
                        #[trigger] rat_values(expected_returns@)[k],
                    ) {
                        assert(rat_values(expected_returns@)[i as int] == c@);
                        let kw = choose|kw: int| 0 <= kw < i && mu@[kw] == mx;
                        assert(rat_values(expected_returns@)[kw] == mx@);
                        assert(false);
                    }
                }
                return Err(OptimizerError::ArithmeticOverflow);
            },
        };
        if !keep {
            proof {
                use_type_invariant(&c);
                assert forall|k: int| 0 <= k < i + 1 implies rat_le(#[trigger] muv[k], c@) by {
                    if k < i as int {
                        lemma_rat_order_trans(muv[k], mx@, c@);
                    }
                }
                assert(mu@[i as int] == c);
            }
            mx = c;
        }
        i += 1;
    }
    match target_return.le(&mx) {
        Some(true) => {},
        Some(false) => {
            proof {
                assert forall|k: int| 0 <= k < mu@.len() implies rat_lt(
                    #[trigger] muv[k],
                    target_return@,
                ) by {
                    lemma_rat_order_trans(muv[k], mx@, target_return@);
                }
            }
            return Err(OptimizerError::OptimizationInfeasible);
        },
        None => {
            proof {
                if rat_modest(target_return@) && (forall|k: int|
                    0 <= k < expected_returns@.len() ==> rat_modest(
                        #[trigger] rat_values(expected_returns@)[k],
                    )) {
                    let kw = choose|kw: int| 0 <= kw < n && mu@[kw] == mx;
                    assert(rat_values(expected_returns@)[kw] == mx@);
                    assert(false);
                }
            }
            return Err(OptimizerError::ArithmeticOverflow);
        },
    }
    proof {
        // The target does not exceed the largest expected return, so the
        // all-below-target hypothesis is refuted once and for all exits.
        let kw = choose|k: int| 0 <= k < n && mu@[k] == mx;
        assert(!(forall|i2: int| 0 <= i2 < expected_returns@.len() ==> rat_lt(
            #[trigger] rat_values(expected_returns@)[i2],
            target_return@,
        ))) by {
            assert(rat_values(expected_returns@)[kw] == mx@);
            assert(!rat_lt(rat_values(expected_returns@)[kw], target_return@));
        }
    }
    // Candidates from exact elimination: C a = 1 and C b = mu.
    let mut ones: Vec<Ratio> = Vec::new();
    let mut j: usize = 0;
    while j < n
        invariant
            0 <= j <= n,
            ones@.len() == j,
        decreases n - j,
    {
        ones.push(Ratio::one());
        j += 1;
    }
    let a_sol = match crate::solve::gaussian_solve(&cov_matrix.entries, &ones) {
        Ok(v) => v,
        Err(e) => {
            return Err(
                if matches!(e, OptimizerError::ArithmeticOverflow) {
                    OptimizerError::ArithmeticOverflow
                } else {
                    OptimizerError::OptimizationFailed
                },
            );
        },
    };
    let mu_rhs = copy_row(mu);
    let b_sol = match crate::solve::gaussian_solve(&cov_matrix.entries, &mu_rhs) {
        Ok(v) => v,
        Err(e) => {
            return Err(
                if matches!(e, OptimizerError::ArithmeticOverflow) {
                    OptimizerError::ArithmeticOverflow
                } else {
                    OptimizerError::OptimizationFailed
                },
            );
        },
    };
    let sa = match sum_ratios(&a_sol) {
        Some(q) => q,
        None => { return Err(OptimizerError::ArithmeticOverflow); },
    };
    let sb = match sum_ratios(&b_sol) {
        Some(q) => q,
        None => { return Err(OptimizerError::ArithmeticOverflow); },
    };
    let da = match dot_ratios(mu, &a_sol) {
        Some(q) => q,
        None => { return Err(OptimizerError::ArithmeticOverflow); },
    };
    let db = match dot_ratios(mu, &b_sol) {
        Some(q) => q,
        None => { return Err(OptimizerError::ArithmeticOverflow); },
    };
    // The multipliers solve [sa sb; da db] [lam gam]' = [1 target]'.
    let det = {
        let t1 = match sa.mul(&db) {
            Some(q) => q,
            None => { return Err(OptimizerError::ArithmeticOverflow); },
        };
        let t2 = match sb.mul(&da) {
            Some(q) => q,
            None => { return Err(OptimizerError::ArithmeticOverflow); },
        };
        match t1.sub(&t2) {
            Some(q) => q,
            None => { return Err(OptimizerError::ArithmeticOverflow); },
        }
    };
    if det.is_zero() {
        return finish_minimum_variance(mu, cov_matrix, target_return, &a_sol, &sa);
    }
    let lam = {
        let t1 = match target_return.mul(&sb) {
            Some(q) => q,
            None => { return Err(OptimizerError::ArithmeticOverflow); },
        };
        let t2 = match db.sub(&t1) {
            Some(q) => q,
            None => { return Err(OptimizerError::ArithmeticOverflow); },
        };
        match t2.div(&det) {
            Some(q) => q,
            None => { return Err(OptimizerError::ArithmeticOverflow); },
        }
    };
    let gam = {
        let t1 = match sa.mul(target_return) {
            Some(q) => q,
            None => { return Err(OptimizerError::ArithmeticOverflow); },
        };
        let t2 = match t1.sub(&da) {
            Some(q) => q,
            None => { return Err(OptimizerError::ArithmeticOverflow); },
        };
        match t2.div(&det) {
            Some(q) => q,
            None => { return Err(OptimizerError::ArithmeticOverflow); },
        }
    };
    let zero = Ratio::zero();
    let gam_ok = match zero.le(&gam) {
        Some(b) => b,
        None => { return Err(OptimizerError::ArithmeticOverflow); },
    };
    if !gam_ok {
        // The return constraint is slack at the optimum; take the
        // minimum-variance weights instead.
        return finish_minimum_variance(mu, cov_matrix, target_return, &a_sol, &sa);
    }
    let mut w: Vec<Ratio> = Vec::new();
    let mut k: usize = 0;
    while k < n
        invariant
            n == a_sol@.len(),
            n == b_sol@.len(),
            0 <= k <= n,
            w@.len() == k,
            !(forall|i2: int|
                0 <= i2 < expected_returns@.len() ==> rat_lt(
                    #[trigger] rat_values(expected_returns@)[i2],
                    target_return@,
                )),
        decreases n - k,
    {
        let t1 = match lam.mul(&a_sol[k]) {
            Some(q) => q,
            None => { return Err(OptimizerError::ArithmeticOverflow); },
        };
        let t2 = match gam.mul(&b_sol[k]) {
            Some(q) => q,
            None => { return Err(OptimizerError::ArithmeticOverflow); },
        };
        let wk = match t1.add(&t2) {
            Some(q) => q,
            None => { return Err(OptimizerError::ArithmeticOverflow); },
        };
        w.push(wk);
        k += 1;
    }
    certify_point(mu, cov_matrix, target_return, w, lam, gam)
}

} // verus!
