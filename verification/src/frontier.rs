//! The efficient frontier: one optimized point per target return.
//!
//! Targets are spaced evenly over the closed span of the expected returns,
//! `target[i] = min + (max - min) * i / (num_points - 1)`, and the
//! constrained program is solved once per target, in increasing order.
//! Fewer than two points would make the spacing formula divide by zero, so
//! callers must ask for at least two.

use vstd::prelude::*;

verus! {

use crate::covariance::CovarianceMatrix;
use crate::errors::OptimizerError;
use crate::linalg::{rat_values, rat_seq_wf, ratios_wf};
use crate::optimize::{FrontierPoint, efficient_point, optimize_portfolio};
use crate::rational::{
    Rat, Ratio, rat_eq, rat_wf, rat_lt, rat_add, rat_sub, rat_mul, rat_div, rat_of_int, rat_modest,
    lemma_rat_eq_trans, lemma_rat_ops_wf, lemma_rat_le_congr,
    lemma_rat_add_congr, lemma_rat_mul_congr, lemma_rat_div_congr,
};

/// The smallest value in a nonempty sequence, by first occurrence.
pub open spec fn rat_seq_min(s: Seq<Rat>) -> Rat
    decreases s.len(),
{
    if s.len() <= 1 {
        s[0]
    } else {
        let m = rat_seq_min(s.drop_last());
        if rat_lt(s.last(), m) {
            s.last()
        } else {
            m
        }
    }
}

/// The largest value in a nonempty sequence, by first occurrence.
pub open spec fn rat_seq_max(s: Seq<Rat>) -> Rat
    decreases s.len(),
{
    if s.len() <= 1 {
        s[0]
    } else {
        let m = rat_seq_max(s.drop_last());
        if rat_lt(m, s.last()) {
            s.last()
        } else {
            m
        }
    }
}

pub proof fn lemma_rat_seq_extrema_wf(s: Seq<Rat>)
    requires
        rat_seq_wf(s),
        s.len() >= 1,
    ensures
        rat_wf(rat_seq_min(s)),
        rat_wf(rat_seq_max(s)),
    decreases s.len(),
{
    if s.len() > 1 {
        assert(rat_seq_wf(s.drop_last()));
        lemma_rat_seq_extrema_wf(s.drop_last());
    }
}

/// The `i`-th of `np` evenly spaced targets over `[mn, mx]`.
pub open spec fn frontier_target(mn: Rat, mx: Rat, i: int, np: int) -> Rat {
    rat_add(mn, rat_div(rat_mul(rat_sub(mx, mn), rat_of_int(i)), rat_of_int(np - 1)))
}

/// `p` solves the program for a target equal to the `i`-th evenly spaced
/// value between `mn` and `mx`.
pub open spec fn frontier_point_at(
    mu: Seq<Rat>,
    rows: Seq<Seq<Rat>>,
    p: FrontierPoint,
    mn: Rat,
    mx: Rat,
    i: int,
    np: int,
) -> bool {
    exists|t: Rat| rat_eq(t, frontier_target(mn, mx, i, np)) && #[trigger] efficient_point(
        mu,
        rows,
        p,
        t,
    )
}

/// Value of the smallest element of a nonempty vector.
fn min_of(v: &Vec<Ratio>) -> (r: Option<Ratio>)
    requires
        v@.len() >= 1,
    ensures
        r matches Some(m) ==> rat_eq(m@, rat_seq_min(rat_values(v@))) && rat_wf(m@),
        (forall|k: int| 0 <= k < v@.len() ==> rat_modest(#[trigger] rat_values(v@)[k]))
            ==> r is Some,
{
    ratios_wf(v);
    let n = v.len();
    let mut cur = v[0];
    let mut i: usize = 1;
    proof {
        use_type_invariant(&cur);
    }
    while i < n
        invariant
            n == v@.len(),
            n >= 1,
            rat_seq_wf(rat_values(v@)),
            1 <= i <= n,
            rat_eq(cur@, rat_seq_min(rat_values(v@).subrange(0, i as int))),
            rat_wf(cur@),
            exists|k: int| 0 <= k < i && v@[k] == cur,
        decreases n - i,
    {
        let c = v[i];
        let smaller = match c.lt(&cur) {
            Some(b) => b,
            None => {
                proof {
                    if forall|k: int| 0 <= k < v@.len() ==> rat_modest(
                        #[trigger] rat_values(v@)[k],
                    ) {
                        assert(rat_values(v@)[i as int] == c@);
                        let kw = choose|kw: int| 0 <= kw < i && v@[kw] == cur;
                        assert(rat_values(v@)[kw] == cur@);
                        assert(false);
                    }
                }
                return None;
            },
        };
        proof {
            use_type_invariant(&c);
            let s = rat_values(v@);
            let pre = s.subrange(0, i as int);
            let post = s.subrange(0, i + 1);
            assert(post.drop_last() =~= pre);
            assert(post.last() == c@);
            assert(rat_seq_wf(pre));
            lemma_rat_seq_extrema_wf(pre);
            lemma_rat_le_congr(c@, cur@, c@, rat_seq_min(pre));
        }
        if smaller {
            cur = c;
        }
        i += 1;
    }
    proof {
        assert(rat_values(v@).subrange(0, n as int) =~= rat_values(v@));
    }
    Some(cur)
}

/// Value of the largest element of a nonempty vector.
fn max_of(v: &Vec<Ratio>) -> (r: Option<Ratio>)
    requires
        v@.len() >= 1,
    ensures
        r matches Some(m) ==> rat_eq(m@, rat_seq_max(rat_values(v@))) && rat_wf(m@),
        (forall|k: int| 0 <= k < v@.len() ==> rat_modest(#[trigger] rat_values(v@)[k]))
            ==> r is Some,
{
    ratios_wf(v);
    let n = v.len();
    let mut cur = v[0];
    let mut i: usize = 1;
    proof {
        use_type_invariant(&cur);
    }
    while i < n
        invariant
            n == v@.len(),
            n >= 1,
            rat_seq_wf(rat_values(v@)),
            1 <= i <= n,
            rat_eq(cur@, rat_seq_max(rat_values(v@).subrange(0, i as int))),
            rat_wf(cur@),
            exists|k: int| 0 <= k < i && v@[k] == cur,
        decreases n - i,
    {
        let c = v[i];
        let larger = match cur.lt(&c) {
            Some(b) => b,
            None => {
                proof {
                    if forall|k: int| 0 <= k < v@.len() ==> rat_modest(
                        #[trigger] rat_values(v@)[k],
                    ) {
                        assert(rat_values(v@)[i as int] == c@);
                        let kw = choose|kw: int| 0 <= kw < i && v@[kw] == cur;
                        assert(rat_values(v@)[kw] == cur@);
                        assert(false);
                    }
                }
                return None;
            },
        };
        proof {
            use_type_invariant(&c);
            let s = rat_values(v@);
            let pre = s.subrange(0, i as int);
            let post = s.subrange(0, i + 1);
            assert(post.drop_last() =~= pre);
            assert(post.last() == c@);
            assert(rat_seq_wf(pre));
            lemma_rat_seq_extrema_wf(pre);
            lemma_rat_le_congr(cur@, c@, rat_seq_max(pre), c@);
        }
        if larger {
            cur = c;
        }
        i += 1;
    }
    proof {
        assert(rat_values(v@).subrange(0, n as int) =~= rat_values(v@));
    }
    Some(cur)
}

/// Sweep evenly spaced targets from the smallest to the largest expected
/// return and solve the constrained program once per target.
pub fn calculate_efficient_frontier(
    expected_returns: &Vec<Ratio>,
    cov_matrix: &CovarianceMatrix,
    num_points: usize,
) -> (r: Result<Vec<FrontierPoint>, OptimizerError>)
    requires
        cov_matrix.wf(),
        expected_returns@.len() == cov_matrix.n_assets,
        cov_matrix.n_assets >= 1,
        num_points >= 2,
    ensures
        r matches Ok(f) ==> {
            &&& f@.len() == num_points
            &&& forall|i: int|
                0 <= i < num_points ==> frontier_point_at(
                    rat_values(expected_returns@),
                    crate::linalg::rat_rows(cov_matrix.entries@),
                    #[trigger] f@[i],
                    rat_seq_min(rat_values(expected_returns@)),
                    rat_seq_max(rat_values(expected_returns@)),
                    i,
                    num_points as int,
                )
        },
        r matches Err(e) ==> e == OptimizerError::OptimizationInfeasible || e
            == OptimizerError::OptimizationFailed || e == OptimizerError::ArithmeticOverflow,
{
    let mu = expected_returns;
    let ghost muv = rat_values(mu@);
    let ghost rows = crate::linalg::rat_rows(cov_matrix.entries@);
    let ghost np = num_points as int;
    let mn = match min_of(mu) {
        Some(q) => q,
        None => { return Err(OptimizerError::ArithmeticOverflow); },
    };
    let mx = match max_of(mu) {
        Some(q) => q,
        None => { return Err(OptimizerError::ArithmeticOverflow); },
    };
    if num_points - 1 > (u32::MAX as usize) {
        return Err(OptimizerError::ArithmeticOverflow);
    }
    let denom = Ratio::from_int(((num_points - 1) as u32) as i64);
    let diff = match mx.sub(&mn) {
        Some(q) => q,
        None => { return Err(OptimizerError::ArithmeticOverflow); },
    };
    let ghost smn = rat_seq_min(muv);
    let ghost smx = rat_seq_max(muv);
    proof {
        use_type_invariant(&mn);
        use_type_invariant(&mx);
        use_type_invariant(&diff);
        lemma_rat_add_congr(mx@, mn@, smx, smn);
        lemma_rat_ops_wf(mx@, mn@);
        lemma_rat_eq_trans(diff@, rat_sub(mx@, mn@), rat_sub(smx, smn));
    }
    let mut out: Vec<FrontierPoint> = Vec::new();
    let mut i: usize = 0;
    while i < num_points
        invariant
            cov_matrix.wf(),
            mu@.len() == cov_matrix.n_assets,
            cov_matrix.n_assets >= 1,
            num_points >= 2,
            num_points - 1 <= u32::MAX,
            np == num_points as int,
            muv == rat_values(mu@),
            rows == crate::linalg::rat_rows(cov_matrix.entries@),
            smn == rat_seq_min(muv),
            smx == rat_seq_max(muv),
            rat_eq(mn@, smn),
            rat_wf(mn@),
            rat_eq(diff@, rat_sub(smx, smn)),
            rat_wf(diff@),
            denom@ == rat_of_int(np - 1),
            0 <= i <= num_points,
            out@.len() == i,
            forall|k: int|
                0 <= k < i ==> frontier_point_at(
                    muv,
                    rows,
                    #[trigger] out@[k],
                    smn,
                    smx,
                    k,
                    np,
                ),
        decreases num_points - i,
    {
        let step = Ratio::from_int((i as u32) as i64);
        let t1 = match diff.mul(&step) {
            Some(q) => q,
            None => { return Err(OptimizerError::ArithmeticOverflow); },
        };
        let t2 = match t1.div(&denom) {
            Some(q) => q,
            None => { return Err(OptimizerError::ArithmeticOverflow); },
        };
        let ti = match mn.add(&t2) {
            Some(q) => q,
            None => { return Err(OptimizerError::ArithmeticOverflow); },
        };
        let ghost spec_t = frontier_target(smn, smx, i as int, np);
        proof {
            use_type_invariant(&t1);
            use_type_invariant(&t2);
            use_type_invariant(&ti);
            lemma_rat_mul_congr(diff@, step@, rat_sub(smx, smn), rat_of_int(i as int));
            lemma_rat_ops_wf(diff@, step@);
            lemma_rat_eq_trans(
                t1@,
                rat_mul(diff@, step@),
                rat_mul(rat_sub(smx, smn), rat_of_int(i as int)),
            );
            lemma_rat_div_congr(
                t1@,
                denom@,
                rat_mul(rat_sub(smx, smn), rat_of_int(i as int)),
                rat_of_int(np - 1),
            );
            lemma_rat_ops_wf(t1@, denom@);
            lemma_rat_eq_trans(
                t2@,
                rat_div(t1@, denom@),
                rat_div(rat_mul(rat_sub(smx, smn), rat_of_int(i as int)), rat_of_int(np - 1)),
            );
            lemma_rat_add_congr(
                mn@,
                t2@,
                smn,
                rat_div(rat_mul(rat_sub(smx, smn), rat_of_int(i as int)), rat_of_int(np - 1)),
            );
            lemma_rat_ops_wf(mn@, t2@);
            lemma_rat_eq_trans(ti@, rat_add(mn@, t2@), spec_t);
        }
        let p = match optimize_portfolio(mu, cov_matrix, &ti) {
            Ok(p) => p,
            Err(e) => { return Err(e); },
        };
        let ghost prev = out@;
        out.push(p);
        proof {
            assert(efficient_point(muv, rows, out@[i as int], ti@));
            assert forall|k: int| 0 <= k < i + 1 implies frontier_point_at(
                muv,
                rows,
                #[trigger] out@[k],
                smn,
                smx,
                k,
                np,
            ) by {
                if k < i as int {
                    assert(out@[k] == prev[k]);
                    assert(frontier_point_at(muv, rows, prev[k], smn, smx, k, np));
                } else {
                    assert(rat_eq(ti@, frontier_target(smn, smx, k, np)) && efficient_point(
                        muv,
                        rows,
                        out@[k],
                        ti@,
                    ));
                }
            }
        }
        i += 1;
    }
    Ok(out)
}

} // verus!
