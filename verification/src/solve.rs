//! Exact Gaussian elimination over fractions.
//!
//! Elimination searches for a candidate solution of `A x = b`; the
//! candidate is then certified by exact arithmetic, so a success carries
//! the fact that the result solves the system. A column with no nonzero
//! pivot, or a candidate that fails certification, reports a singular
//! matrix.

use vstd::prelude::*;

verus! {

use crate::errors::OptimizerError;
use crate::linalg::{copy_row, matvec_ratios, rat_values, rat_dot, rat_matvec, rat_rows};
use crate::rational::{Ratio, rat_eq, lemma_rat_eq_sym, lemma_rat_eq_trans};

/// Certified solution of the square system `a x = b` by elimination with
/// exact pivoting: a success solves every equation of the system exactly.
pub fn gaussian_solve(a: &Vec<Vec<Ratio>>, b: &Vec<Ratio>) -> (r: Result<
    Vec<Ratio>,
    OptimizerError,
>)
    requires
        a@.len() == b@.len(),
        forall|i: int| 0 <= i < a@.len() ==> (#[trigger] a@[i])@.len() == a@.len(),
    ensures
        r matches Ok(x) ==> x@.len() == a@.len() && forall|i: int|
            0 <= i < a@.len() ==> rat_eq(
                #[trigger] rat_dot(rat_values(a@[i]@), rat_values(x@)),
                (b@[i])@,
            ),
        r matches Err(e) ==> e == OptimizerError::SingularCovariance || e
            == OptimizerError::ArithmeticOverflow,
{
    let n = a.len();
    if n == usize::MAX {
        return Err(OptimizerError::ArithmeticOverflow);
    }
    let mut aug: Vec<Vec<Ratio>> = Vec::new();
    let mut i: usize = 0;
    while i < n
        invariant
            n == a@.len(),
            a@.len() == b@.len(),
            forall|k: int| 0 <= k < a@.len() ==> (#[trigger] a@[k])@.len() == a@.len(),
            0 <= i <= n,
            aug@.len() == i,
            forall|k: int| 0 <= k < i ==> (#[trigger] aug@[k])@.len() == n + 1,
        decreases n - i,
    {
        let mut row = copy_row(&a[i]);
        row.push(b[i]);
        aug.push(row);
        i += 1;
    }
    let mut col: usize = 0;
    while col < n
        invariant
            n < usize::MAX,
            aug@.len() == n,
            forall|k: int| 0 <= k < n ==> (#[trigger] aug@[k])@.len() == n + 1,
            0 <= col <= n,
        decreases n - col,
    {
        let mut piv: usize = col;
        let mut found: bool = false;
        let mut rr: usize = col;
        while rr < n
            invariant
                aug@.len() == n,
                forall|k: int| 0 <= k < n ==> (#[trigger] aug@[k])@.len() == n + 1,
                col <= rr <= n,
                col < n,
                col <= piv < n,
            decreases n - rr,
        {
            if !found && !aug[rr][col].is_zero() {
                piv = rr;
                found = true;
            }
            rr += 1;
        }
        if !found {
            return Err(OptimizerError::SingularCovariance);
        }
        if piv != col {
            let row_piv = copy_row(&aug[piv]);
            let row_col = copy_row(&aug[col]);
            aug[piv] = row_col;
            aug[col] = row_piv;
        }
        let pivot = aug[col][col];
        if pivot.is_zero() {
            return Err(OptimizerError::SingularCovariance);
        }
        let mut r2: usize = col + 1;
        while r2 < n
            invariant
                n < usize::MAX,
                aug@.len() == n,
                forall|k: int| 0 <= k < n ==> (#[trigger] aug@[k])@.len() == n + 1,
                col < n,
                col + 1 <= r2 <= n,
            decreases n - r2,
        {
            let factor = match aug[r2][col].div(&pivot) {
                Some(q) => q,
                None => { return Err(OptimizerError::ArithmeticOverflow); },
            };
            let mut newrow: Vec<Ratio> = Vec::new();
            let mut k: usize = 0;
            while k < n + 1
                invariant
                    n < usize::MAX,
                    aug@.len() == n,
                    forall|u: int| 0 <= u < n ==> (#[trigger] aug@[u])@.len() == n + 1,
                    col < n,
                    r2 < n,
                    0 <= k <= n + 1,
                    newrow@.len() == k,
                decreases n + 1 - k,
            {
                let scaled = match factor.mul(&aug[col][k]) {
                    Some(q) => q,
                    None => { return Err(OptimizerError::ArithmeticOverflow); },
                };
                let entry = match aug[r2][k].sub(&scaled) {
                    Some(q) => q,
                    None => { return Err(OptimizerError::ArithmeticOverflow); },
                };
                newrow.push(entry);
                k += 1;
            }
            aug[r2] = newrow;
            r2 += 1;
        }
        col += 1;
    }
    let mut x: Vec<Ratio> = Vec::new();
    let mut i2: usize = 0;
    while i2 < n
        invariant
            0 <= i2 <= n,
            x@.len() == i2,
        decreases n - i2,
    {
        x.push(Ratio::zero());
        i2 += 1;
    }
    let mut step: usize = 0;
    while step < n
        invariant
            aug@.len() == n,
            forall|k: int| 0 <= k < n ==> (#[trigger] aug@[k])@.len() == n + 1,
            0 <= step <= n,
            x@.len() == n,
        decreases n - step,
    {
        let idx = n - 1 - step;
        let mut s = aug[idx][n];
        let mut k: usize = idx + 1;
        while k < n
            invariant
                aug@.len() == n,
                forall|u: int| 0 <= u < n ==> (#[trigger] aug@[u])@.len() == n + 1,
                idx < n,
                x@.len() == n,
                idx + 1 <= k <= n,
            decreases n - k,
        {
            let scaled = match aug[idx][k].mul(&x[k]) {
                Some(q) => q,
                None => { return Err(OptimizerError::ArithmeticOverflow); },
            };
            s = match s.sub(&scaled) {
                Some(q) => q,
                None => { return Err(OptimizerError::ArithmeticOverflow); },
            };
            k += 1;
        }
        let diag = aug[idx][idx];
        if diag.is_zero() {
            return Err(OptimizerError::SingularCovariance);
        }
        let xi = match s.div(&diag) {
            Some(q) => q,
            None => { return Err(OptimizerError::ArithmeticOverflow); },
        };
        x[idx] = xi;
        step += 1;
    }
    // Certify the candidate: it must solve every equation exactly.
    let z = match matvec_ratios(a, &x) {
        Some(v) => v,
        None => { return Err(OptimizerError::ArithmeticOverflow); },
    };
    let mut ci: usize = 0;
    while ci < n
        invariant
            n == a@.len(),
            a@.len() == b@.len(),
            z@.len() == n,
            0 <= ci <= n,
            forall|u: int| 0 <= u < ci ==> rat_eq((#[trigger] z@[u])@, (b@[u])@),
        decreases n - ci,
    {
        let zi = z[ci];
        let bi = b[ci];
        match zi.same_value(&bi) {
            Some(true) => {},
            Some(false) => { return Err(OptimizerError::SingularCovariance); },
            None => { return Err(OptimizerError::ArithmeticOverflow); },
        }
        ci += 1;
    }
    proof {
        assert forall|i: int| 0 <= i < a@.len() implies rat_eq(
            #[trigger] rat_dot(rat_values(a@[i]@), rat_values(x@)),
            (b@[i])@,
        ) by {
            assert(rat_rows(a@)[i] == rat_values(a@[i]@));
            assert(rat_matvec(rat_rows(a@), rat_values(x@))[i] == rat_dot(
                rat_values(a@[i]@),
                rat_values(x@),
            ));
            assert(rat_eq(rat_values(z@)[i], rat_matvec(rat_rows(a@), rat_values(x@))[i]));
            assert(rat_values(z@)[i] == z@[i]@);
            lemma_rat_eq_sym(rat_values(z@)[i], rat_matvec(rat_rows(a@), rat_values(x@))[i]);
            lemma_rat_eq_trans(
                rat_dot(rat_values(a@[i]@), rat_values(x@)),
                z@[i]@,
                (b@[i])@,
            );
        }
    }
    Ok(x)
}

} // verus!
