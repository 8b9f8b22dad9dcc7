//! Sample covariance estimation over a batch of price series.
//!
//! Estimation deduplicates the batch to one series per asset, stacks the
//! assets' returns into a return matrix, and then
//! dispatches to one of two interchangeable backends selected by [`Engine`]:
//! a reference path that forms deviation rows and takes their inner
//! products, and a pair path that computes each unordered pair's covariance
//! as an independent work unit, the way a parallel kernel would. Both
//! backends meet the same contract — every entry denotes the unbiased sample
//! covariance — and both write each computed value to the two mirrored
//! positions, so the result is exactly symmetric, not merely up to
//! recomputation.

use vstd::prelude::*;

verus! {

use crate::errors::CovarianceError;
use crate::linalg::{
    rat_values, rat_sum, rat_dot, rat_pointwise_mul, rat_seq_wf, rat_rows,
    lemma_rat_sum_congr, lemma_rat_dot_congr, lemma_rat_sum_wf,
    ratios_wf, copy_row, dot_ratios,
};
use crate::rational::{
    Rat, Ratio, rat_add, rat_sub, rat_mul, rat_div, rat_eq, rat_wf, rat_of_int,
    lemma_rat_add_congr, lemma_rat_mul_congr, lemma_rat_div_congr, lemma_rat_eq_trans,
    lemma_rat_ops_wf,
};
use crate::series::{
    PriceSeries, asset_series, series_returns, has_zero_divisor, returns_match,
    rat_mean, calculate_simple_returns, small_prices, zero_free,
};

/// Selects which covariance backend runs; both agree on the result.
#[derive(Clone, Copy, Debug, PartialEq, Eq, Structural)]
pub enum Engine {
    /// Single-pass dense computation over deviation rows.
    Reference,
    /// Independent per-pair work units, as a parallel kernel schedules them.
    Parallel,
}

/// The stacked returns of a batch: one row per asset, all rows equally
/// long.
#[derive(Debug, Clone)]
pub struct ReturnMatrix {
    pub rows: Vec<Vec<Ratio>>,
    pub n_samples: usize,
}

impl ReturnMatrix {
    pub open spec fn wf(self) -> bool {
        &&& self.rows@.len() >= 2
        &&& self.n_samples >= 1
        &&& forall|i: int| 0 <= i < self.rows@.len() ==> (#[trigger] self.rows@[i])@.len()
            == self.n_samples
    }
}

/// A square matrix of pairwise sample covariances.
#[derive(Debug, Clone)]
pub struct CovarianceMatrix {
    pub n_assets: usize,
    pub entries: Vec<Vec<Ratio>>,
}

impl CovarianceMatrix {
    pub open spec fn wf(self) -> bool {
        &&& self.entries@.len() == self.n_assets
        &&& forall|i: int| 0 <= i < self.n_assets ==> (#[trigger] self.entries@[i])@.len()
            == self.n_assets
    }

    /// Build a matrix from explicit rows; exactly the square inputs are
    /// accepted.
    pub fn from_entries(entries: Vec<Vec<Ratio>>) -> (r: Option<CovarianceMatrix>)
        ensures
            r matches Some(m) ==> m.wf() && m.entries@ == entries@ && m.n_assets
                == entries@.len(),
            (forall|i: int|
                0 <= i < entries@.len() ==> (#[trigger] entries@[i])@.len() == entries@.len())
                ==> r is Some,
    {
        let n = entries.len();
        let mut i: usize = 0;
        while i < n
            invariant
                n == entries@.len(),
                0 <= i <= n,
                forall|k: int| 0 <= k < i ==> (#[trigger] entries@[k])@.len() == n,
            decreases n - i,
        {
            if entries[i].len() != n {
                return None;
            }
            i += 1;
        }
        Some(CovarianceMatrix { n_assets: n, entries })
    }

    /// Read one entry.
    pub fn entry(&self, i: usize, j: usize) -> (r: Ratio)
        requires
            self.wf(),
            i < self.n_assets,
            j < self.n_assets,
        ensures
            r == self.entries@[i as int]@[j as int],
    {
        self.entries[i][j]
    }
}

/// Stack the assets' returns into a return matrix, one row per asset.
///
/// The batch is rejected before any arithmetic when fewer than two assets
/// remain, or when the assets' lengths disagree.
pub fn extract_returns(batch: &Vec<PriceSeries>) -> (r: Result<ReturnMatrix, CovarianceError>)
    ensures
        r matches Ok(rm) ==> {
            &&& rm.wf()
            &&& rm.rows@.len() == asset_series(batch@).len()
            &&& forall|j: int| 0 <= j < rm.rows@.len() ==> (#[trigger] rm.rows@[j])@.len()
                == series_returns(asset_series(batch@)[j]).len()
            &&& forall|j: int, t: int|
                0 <= j < rm.rows@.len() && 0 <= t < rm.n_samples ==> rat_eq(
                    #[trigger] rat_values(rm.rows@[j]@)[t],
                    series_returns(asset_series(batch@)[j])[t],
                )
        },
        r == Err::<ReturnMatrix, CovarianceError>(CovarianceError::InsufficientObservations)
            <==> asset_series(batch@).len() < 2,
        r == Err::<ReturnMatrix, CovarianceError>(CovarianceError::UnevenSampleLength)
            <==> (asset_series(batch@).len() >= 2 && exists|j: int|
                0 <= j < asset_series(batch@).len() && (#[trigger] asset_series(
                    batch@,
                )[j]).prices@.len() != asset_series(batch@)[0].prices@.len()),
        r == Err::<ReturnMatrix, CovarianceError>(CovarianceError::ZeroPrice) ==> exists|k: int|
            0 <= k < asset_series(batch@).len() && has_zero_divisor(
                #[trigger] asset_series(batch@)[k],
            ),
        r matches Err(e) ==> (e == CovarianceError::InsufficientObservations || e
            == CovarianceError::UnevenSampleLength || e == CovarianceError::ZeroPrice || e
            == CovarianceError::ArithmeticOverflow),
        small_prices(batch@) && zero_free(batch@) && asset_series(batch@).len() >= 2 && (
        forall|j: int|
            0 <= j < asset_series(batch@).len() ==> (#[trigger] asset_series(
                batch@,
            )[j]).prices@.len() == asset_series(batch@)[0].prices@.len()) ==> r is Ok,
{
    let ghost assets_g = asset_series(batch@);
    let assets = crate::series::dedup_series(batch);
    proof {
        crate::series::lemma_asset_lens(batch@);
    }
    let count = assets.len();
    if count < 2 {
        return Err(CovarianceError::InsufficientObservations);
    }
    let len0 = assets[0].prices.len();
    let mut k: usize = 1;
    while k < count
        invariant
            count == assets@.len(),
            assets@.len() == assets_g.len(),
            assets_g == asset_series(batch@),
            forall|u: int|
                0 <= u < assets@.len() ==> (#[trigger] assets@[u]).symbol@
                    == assets_g[u].symbol@ && assets@[u].prices@ == assets_g[u].prices@,
            len0 == assets_g[0].prices@.len(),
            1 <= k <= count,
            forall|u: int| 0 <= u < k ==> (#[trigger] assets_g[u]).prices@.len() == len0,
        decreases count - k,
    {
        if assets[k].prices.len() != len0 {
            proof {
                assert(assets_g[k as int].prices@.len() != assets_g[0].prices@.len());
            }
            return Err(CovarianceError::UnevenSampleLength);
        }
        k += 1;
    }
    let rets = match calculate_simple_returns(batch) {
        Ok(v) => v,
        Err(e) => {
            return Err(
                if matches!(e, CovarianceError::ZeroPrice) {
                    CovarianceError::ZeroPrice
                } else {
                    CovarianceError::ArithmeticOverflow
                },
            );
        },
    };
    let m = rets.len();
    let mut rows: Vec<Vec<Ratio>> = Vec::new();
    let mut i: usize = 0;
    while i < m
        invariant
            m == rets@.len(),
            rets@.len() == assets_g.len(),
            assets_g == asset_series(batch@),
            forall|k: int| 0 <= k < rets@.len() ==> returns_match(#[trigger] rets@[k], assets_g[k]),
            0 <= i <= m,
            rows@.len() == i,
            forall|k: int| 0 <= k < i ==> (#[trigger] rows@[k])@ == rets@[k].returns@,
        decreases m - i,
    {
        let row = copy_row(&rets[i].returns);
        rows.push(row);
        i += 1;
    }
    let n_samples = len0 - 1;
    let rm = ReturnMatrix { rows, n_samples };
    proof {
        assert forall|jj: int| 0 <= jj < rm.rows@.len() implies (#[trigger] rm.rows@[jj])@.len()
            == n_samples by {
            assert(returns_match(rets@[jj], assets_g[jj]));
            assert(assets_g[jj].prices@.len() == len0);
        }
        assert forall|jj: int, t: int|
            0 <= jj < rm.rows@.len() && 0 <= t < rm.n_samples implies rat_eq(
                #[trigger] rat_values(rm.rows@[jj]@)[t],
                series_returns(assets_g[jj])[t],
            ) by {
            assert(returns_match(rets@[jj], assets_g[jj]));
            assert(rat_values(rets@[jj].returns@)[t] == rets@[jj].returns@[t]@);
            assert(rat_values(rm.rows@[jj]@)[t] == rm.rows@[jj]@[t]@);
        }
    }
    Ok(rm)
}

/// Deviations of a row from its arithmetic mean.
pub open spec fn dev_seq(r: Seq<Rat>) -> Seq<Rat> {
    Seq::new(r.len(), |k: int| rat_sub(r[k], rat_mean(r)))
}

/// Unbiased sample covariance of two equally long return rows:
/// the inner product of their deviations, normalized by `len - 1`.
pub open spec fn cov_entry(ri: Seq<Rat>, rj: Seq<Rat>) -> Rat {
    rat_div(rat_dot(dev_seq(ri), dev_seq(rj)), rat_of_int(ri.len() - 1))
}

/// `m` is the sample covariance matrix of the given return rows, and is
/// exactly symmetric: mirrored positions hold the identical fraction.
pub open spec fn is_sample_covariance(m: CovarianceMatrix, rows: Seq<Seq<Rat>>) -> bool {
    &&& m.wf()
    &&& m.n_assets == rows.len()
    &&& forall|i: int, j: int|
        0 <= i < rows.len() && 0 <= j < rows.len() ==> rat_eq(
            #[trigger] rat_values(m.entries@[i]@)[j],
            cov_entry(rows[i], rows[j]),
        )
    &&& forall|i: int, j: int|
        0 <= i < rows.len() && 0 <= j < rows.len() ==> #[trigger] m.entries@[i]@[j]
            == m.entries@[j]@[i]
}

pub proof fn lemma_dev_wf(v: Seq<Rat>)
    requires
        rat_seq_wf(v),
    ensures
        rat_seq_wf(dev_seq(v)),
        rat_wf(rat_mean(v)),
{
    lemma_rat_sum_wf(v);
    lemma_rat_ops_wf(rat_sum(v), rat_of_int(v.len() as int));
    assert forall|k: int| 0 <= k < dev_seq(v).len() implies rat_wf(#[trigger] dev_seq(v)[k]) by {
        lemma_rat_ops_wf(v[k], rat_mean(v));
    }
}

pub proof fn lemma_dot_wf(a: Seq<Rat>, b: Seq<Rat>)
    requires
        rat_seq_wf(a),
        rat_seq_wf(b),
        a.len() == b.len(),
    ensures
        rat_wf(rat_dot(a, b)),
{
    let pm = rat_pointwise_mul(a, b);
    assert forall|k: int| 0 <= k < pm.len() implies rat_wf(#[trigger] pm[k]) by {
        lemma_rat_ops_wf(a[k], b[k]);
    }
    lemma_rat_sum_wf(pm);
}

pub proof fn lemma_cov_entry_wf(ri: Seq<Rat>, rj: Seq<Rat>)
    requires
        rat_seq_wf(ri),
        rat_seq_wf(rj),
        ri.len() == rj.len(),
    ensures
        rat_wf(cov_entry(ri, rj)),
{
    lemma_dev_wf(ri);
    lemma_dev_wf(rj);
    lemma_dot_wf(dev_seq(ri), dev_seq(rj));
    lemma_rat_ops_wf(rat_dot(dev_seq(ri), dev_seq(rj)), rat_of_int(ri.len() - 1));
}

/// Sample covariance does not depend on the order of its two rows.
pub proof fn lemma_cov_entry_sym(ri: Seq<Rat>, rj: Seq<Rat>)
    requires
        ri.len() == rj.len(),
    ensures
        cov_entry(ri, rj) == cov_entry(rj, ri),
{
    let p1 = rat_pointwise_mul(dev_seq(ri), dev_seq(rj));
    let p2 = rat_pointwise_mul(dev_seq(rj), dev_seq(ri));
    assert forall|k: int| 0 <= k < p1.len() implies #[trigger] p1[k] == p2[k] by {
        let x = dev_seq(ri)[k];
        let y = dev_seq(rj)[k];
        assert(x.n * y.n == y.n * x.n) by (nonlinear_arith);
        assert(x.d * y.d == y.d * x.d) by (nonlinear_arith);
    }
    assert(p1 =~= p2);
}

/// Sample covariance respects value equality of the rows.
pub proof fn lemma_cov_entry_congr(a1: Seq<Rat>, b1: Seq<Rat>, a2: Seq<Rat>, b2: Seq<Rat>)
    requires
        a1.len() == b1.len(),
        a1.len() == a2.len(),
        a1.len() == b2.len(),
        forall|k: int| 0 <= k < a1.len() ==> rat_eq(#[trigger] a1[k], a2[k]),
        forall|k: int| 0 <= k < b1.len() ==> rat_eq(#[trigger] b1[k], b2[k]),
    ensures
        rat_eq(cov_entry(a1, b1), cov_entry(a2, b2)),
{
    let len = a1.len();
    lemma_rat_sum_congr(a1, a2);
    lemma_rat_div_congr(rat_sum(a1), rat_of_int(len as int), rat_sum(a2), rat_of_int(len as int));
    lemma_rat_sum_congr(b1, b2);
    lemma_rat_div_congr(rat_sum(b1), rat_of_int(len as int), rat_sum(b2), rat_of_int(len as int));
    assert forall|k: int| 0 <= k < len implies rat_eq(
        #[trigger] dev_seq(a1)[k],
        dev_seq(a2)[k],
    ) by {
        lemma_rat_add_congr(a1[k], rat_mean(a1), a2[k], rat_mean(a2));
    }
    assert forall|k: int| 0 <= k < len implies rat_eq(
        #[trigger] dev_seq(b1)[k],
        dev_seq(b2)[k],
    ) by {
        lemma_rat_add_congr(b1[k], rat_mean(b1), b2[k], rat_mean(b2));
    }
    lemma_rat_dot_congr(dev_seq(a1), dev_seq(b1), dev_seq(a2), dev_seq(b2));
    lemma_rat_div_congr(
        rat_dot(dev_seq(a1), dev_seq(b1)),
        rat_of_int(len - 1),
        rat_dot(dev_seq(a2), dev_seq(b2)),
        rat_of_int(len - 1),
    );
}

/// The two backends agree exactly: any two matrices that meet the
/// covariance contract for the same return rows are equal in value, entry
/// for entry — not merely within a tolerance.
pub proof fn lemma_backends_agree(m1: CovarianceMatrix, m2: CovarianceMatrix, rows: Seq<Seq<Rat>>)
    requires
        is_sample_covariance(m1, rows),
        is_sample_covariance(m2, rows),
        forall|i: int| 0 <= i < rows.len() ==> rat_seq_wf(#[trigger] rows[i]),
        forall|i: int| 0 <= i < rows.len() ==> (#[trigger] rows[i]).len() == rows[0].len(),
    ensures
        forall|i: int, j: int|
            0 <= i < rows.len() && 0 <= j < rows.len() ==> rat_eq(
                #[trigger] rat_values(m1.entries@[i]@)[j],
                rat_values(m2.entries@[i]@)[j],
            ),
{
    assert forall|i: int, j: int|
        0 <= i < rows.len() && 0 <= j < rows.len() implies rat_eq(
        #[trigger] rat_values(m1.entries@[i]@)[j],
        rat_values(m2.entries@[i]@)[j],
    ) by {
        lemma_cov_entry_wf(rows[i], rows[j]);
        crate::rational::lemma_rat_eq_sym(
            rat_values(m2.entries@[i]@)[j],
            cov_entry(rows[i], rows[j]),
        );
        lemma_rat_eq_trans(
            rat_values(m1.entries@[i]@)[j],
            cov_entry(rows[i], rows[j]),
            rat_values(m2.entries@[i]@)[j],
        );
    }
}

/// Checked mean of every row; rows of one sample always succeed.
fn row_means(rows: &Vec<Vec<Ratio>>) -> (r: Option<Vec<Ratio>>)
    ensures
        r matches Some(ms) ==> {
            &&& ms@.len() == rows@.len()
            &&& forall|i: int| 0 <= i < ms@.len() ==> rat_eq(
                (#[trigger] ms@[i])@,
                rat_mean(rat_values(rows@[i]@)),
            )
        },
        (forall|i: int| 0 <= i < rows@.len() ==> (#[trigger] rows@[i])@.len() == 1)
            ==> r is Some,
{
    let n = rows.len();
    let mut ms: Vec<Ratio> = Vec::new();
    let mut i: usize = 0;
    while i < n
        invariant
            n == rows@.len(),
            0 <= i <= n,
            ms@.len() == i,
            forall|k: int| 0 <= k < i ==> rat_eq(
                (#[trigger] ms@[k])@,
                rat_mean(rat_values(rows@[k]@)),
            ),
        decreases n - i,
    {
        let m = match crate::series::mean_of(&rows[i]) {
            Some(q) => q,
            None => {
                proof {
                    if forall|k: int| 0 <= k < rows@.len() ==> (#[trigger] rows@[k])@.len()
                        == 1 {
                        assert(rows@[i as int]@.len() == 1);
                        assert(false);
                    }
                }
                return None;
            },
        };
        ms.push(m);
        i += 1;
    }
    Some(ms)
}

/// Checked deviations of a row from a value equal to its mean.
fn deviation_row(row: &Vec<Ratio>, m: &Ratio) -> (r: Option<Vec<Ratio>>)
    requires
        rat_eq(m@, rat_mean(rat_values(row@))),
    ensures
        r matches Some(d) ==> {
            &&& d@.len() == row@.len()
            &&& forall|k: int| 0 <= k < d@.len() ==> rat_eq(
                #[trigger] rat_values(d@)[k],
                dev_seq(rat_values(row@))[k],
            )
            &&& rat_seq_wf(rat_values(d@))
        },
{
    let n = row.len();
    let ghost target = dev_seq(rat_values(row@));
    let mut d: Vec<Ratio> = Vec::new();
    let mut k: usize = 0;
    while k < n
        invariant
            n == row@.len(),
            rat_eq(m@, rat_mean(rat_values(row@))),
            target == dev_seq(rat_values(row@)),
            0 <= k <= n,
            d@.len() == k,
            forall|u: int| 0 <= u < k ==> rat_eq(#[trigger] rat_values(d@)[u], target[u]),
            forall|u: int| 0 <= u < k ==> rat_wf(#[trigger] rat_values(d@)[u]),
        decreases n - k,
    {
        let x = row[k];
        let dk = match x.sub(m) {
            Some(q) => q,
            None => { return None; },
        };
        proof {
            use_type_invariant(&x);
            use_type_invariant(m);
            use_type_invariant(&dk);
            lemma_rat_add_congr(x@, m@, x@, rat_mean(rat_values(row@)));
            lemma_rat_ops_wf(x@, m@);
            lemma_rat_eq_trans(dk@, rat_sub(x@, m@), target[k as int]);
        }
        let ghost prev = d@;
        d.push(dk);
        proof {
            assert forall|u: int| 0 <= u < k + 1 implies (rat_eq(
                #[trigger] rat_values(d@)[u],
                target[u],
            ) && rat_wf(rat_values(d@)[u])) by {
                if u < k as int {
                    assert(rat_values(d@)[u] == prev[u]@);
                    assert(rat_values(prev)[u] == prev[u]@);
                } else {
                    assert(rat_values(d@)[u] == dk@);
                }
            }
        }
        k += 1;
    }
    Some(d)
}

/// One pair's covariance, computed inline from the rows and their
/// precomputed means — the shape of a single parallel work unit.
fn pair_covariance(
    ri: &Vec<Ratio>,
    rj: &Vec<Ratio>,
    mi: &Ratio,
    mj: &Ratio,
    divisor: &Ratio,
) -> (r: Option<Ratio>)
    requires
        ri@.len() == rj@.len(),
        rat_eq(mi@, rat_mean(rat_values(ri@))),
        rat_eq(mj@, rat_mean(rat_values(rj@))),
        divisor@ == rat_of_int(ri@.len() - 1),
    ensures
        r matches Some(c) ==> rat_eq(c@, cov_entry(rat_values(ri@), rat_values(rj@)))
            && rat_wf(c@),
{
    let n = ri.len();
    let ghost vi = rat_values(ri@);
    let ghost vj = rat_values(rj@);
    let ghost pm = rat_pointwise_mul(dev_seq(vi), dev_seq(vj));
    ratios_wf(ri);
    ratios_wf(rj);
    let mut acc = Ratio::zero();
    let mut k: usize = 0;
    while k < n
        invariant
            n == ri@.len(),
            ri@.len() == rj@.len(),
            vi == rat_values(ri@),
            vj == rat_values(rj@),
            rat_eq(mi@, rat_mean(vi)),
            rat_eq(mj@, rat_mean(vj)),
            pm == rat_pointwise_mul(dev_seq(vi), dev_seq(vj)),
            0 <= k <= n,
            rat_eq(acc@, rat_sum(pm.subrange(0, k as int))),
            rat_wf(acc@),
        decreases n - k,
    {
        let x = ri[k];
        let y = rj[k];
        let di = match x.sub(mi) {
            Some(q) => q,
            None => { return None; },
        };
        let dj = match y.sub(mj) {
            Some(q) => q,
            None => { return None; },
        };
        let p = match di.mul(&dj) {
            Some(q) => q,
            None => { return None; },
        };
        let next = match acc.add(&p) {
            Some(q) => q,
            None => { return None; },
        };
        proof {
            use_type_invariant(&x);
            use_type_invariant(&y);
            use_type_invariant(mi);
            use_type_invariant(mj);
            use_type_invariant(&di);
            use_type_invariant(&dj);
            use_type_invariant(&p);
            use_type_invariant(&next);
            lemma_rat_add_congr(x@, mi@, x@, rat_mean(vi));
            lemma_rat_ops_wf(x@, mi@);
            lemma_rat_eq_trans(di@, rat_sub(x@, mi@), dev_seq(vi)[k as int]);
            lemma_rat_add_congr(y@, mj@, y@, rat_mean(vj));
            lemma_rat_ops_wf(y@, mj@);
            lemma_rat_eq_trans(dj@, rat_sub(y@, mj@), dev_seq(vj)[k as int]);
            lemma_rat_mul_congr(di@, dj@, dev_seq(vi)[k as int], dev_seq(vj)[k as int]);
            lemma_rat_ops_wf(di@, dj@);
            lemma_rat_eq_trans(p@, rat_mul(di@, dj@), pm[k as int]);
            assert(pm.subrange(0, k + 1).drop_last() =~= pm.subrange(0, k as int));
            assert(pm.subrange(0, k + 1).last() == pm[k as int]);
            lemma_rat_add_congr(acc@, p@, rat_sum(pm.subrange(0, k as int)), pm[k as int]);
            lemma_rat_ops_wf(acc@, p@);
            lemma_rat_eq_trans(
                next@,
                rat_add(acc@, p@),
                rat_add(rat_sum(pm.subrange(0, k as int)), pm[k as int]),
            );
        }
        acc = next;
        k += 1;
    }
    let c = match acc.div(divisor) {
        Some(q) => q,
        None => { return None; },
    };
    proof {
        use_type_invariant(&c);
        use_type_invariant(divisor);
        assert(pm.subrange(0, n as int) =~= pm);
        lemma_rat_div_congr(acc@, divisor@, rat_sum(pm), divisor@);
        lemma_rat_ops_wf(acc@, divisor@);
        lemma_rat_eq_trans(c@, rat_div(acc@, divisor@), cov_entry(vi, vj));
    }
    Some(c)
}

/// Fill an `n` by `n` matrix from upper-triangular values, writing each
/// value to both mirrored positions.
fn assemble_symmetric(ut: &Vec<Vec<Ratio>>, n: usize) -> (m: Vec<Vec<Ratio>>)
    requires
        ut@.len() == n,
        forall|i: int| 0 <= i < n ==> (#[trigger] ut@[i])@.len() == n - i,
    ensures
        m@.len() == n,
        forall|i: int| 0 <= i < n ==> (#[trigger] m@[i])@.len() == n,
        forall|i: int, j: int| 0 <= i < n && 0 <= j < n ==> #[trigger] m@[i]@[j] == (
            if j >= i { ut@[i]@[j - i] } else { ut@[j]@[i - j] }
        ),
        forall|i: int, j: int| 0 <= i < n && 0 <= j < n ==> #[trigger] m@[i]@[j] == m@[j]@[i],
{
    let mut m: Vec<Vec<Ratio>> = Vec::new();
    let mut i: usize = 0;
    while i < n
        invariant
            ut@.len() == n,
            forall|a: int| 0 <= a < n ==> (#[trigger] ut@[a])@.len() == n - a,
            0 <= i <= n,
            m@.len() == i,
            forall|a: int| 0 <= a < i ==> (#[trigger] m@[a])@.len() == n,
            forall|a: int, b: int| 0 <= a < i && 0 <= b < n ==> #[trigger] m@[a]@[b] == (
                if b >= a { ut@[a]@[b - a] } else { ut@[b]@[a - b] }
            ),
        decreases n - i,
    {
        let mut row: Vec<Ratio> = Vec::new();
        let mut j: usize = 0;
        while j < n
            invariant
                ut@.len() == n,
                forall|a: int| 0 <= a < n ==> (#[trigger] ut@[a])@.len() == n - a,
                0 <= i < n,
                0 <= j <= n,
                row@.len() == j,
                forall|b: int| 0 <= b < j ==> #[trigger] row@[b] == (
                    if b >= i { ut@[i as int]@[b - i] } else { ut@[b]@[i - b] }
                ),
            decreases n - j,
        {
            if j >= i {
                row.push(ut[i][j - i]);
            } else {
                row.push(ut[j][i - j]);
            }
            j += 1;
        }
        m.push(row);
        i += 1;
    }
    m
}

/// Shared assembly and per-entry certification for both backends: an upper
/// triangle whose values denote the pair covariances yields a full matrix
/// meeting [`is_sample_covariance`].
fn finish_matrix(ut: Vec<Vec<Ratio>>, rows: Ghost<Seq<Seq<Rat>>>, n: usize) -> (m:
    CovarianceMatrix)
    requires
        ut@.len() == n,
        rows@.len() == n,
        forall|i: int| 0 <= i < n ==> (#[trigger] rows@[i]).len() == rows@[0].len(),
        forall|i: int| 0 <= i < n ==> rat_seq_wf(#[trigger] rows@[i]),
        forall|i: int| 0 <= i < n ==> (#[trigger] ut@[i])@.len() == n - i,
        forall|i: int, j: int| 0 <= i < n && i <= j < n ==> rat_eq(
            (#[trigger] ut@[i]@[j - i])@,
            cov_entry(rows@[i], rows@[j]),
        ),
    ensures
        is_sample_covariance(m, rows@),
{
    let entries = assemble_symmetric(&ut, n);
    let m = CovarianceMatrix { n_assets: n, entries };
    proof {
        assert forall|i: int, j: int|
            0 <= i < n && 0 <= j < n implies rat_eq(
            #[trigger] rat_values(m.entries@[i]@)[j],
            cov_entry(rows@[i], rows@[j]),
        ) by {
            assert(rat_values(m.entries@[i]@)[j] == m.entries@[i]@[j]@);
            if j >= i {
                assert(m.entries@[i]@[j] == ut@[i]@[j - i]);
            } else {
                assert(m.entries@[i]@[j] == ut@[j]@[i - j]);
                assert(rat_eq((ut@[j]@[i - j])@, cov_entry(rows@[j], rows@[i])));
                lemma_cov_entry_sym(rows@[j], rows@[i]);
            }
        }
    }
    m
}

/// Reference backend: form every deviation row once, then take normalized
/// inner products of deviation rows.
pub fn calculate_covariance_matrix_reference(rm: &ReturnMatrix) -> (r: Result<
    CovarianceMatrix,
    CovarianceError,
>)
    requires
        rm.wf(),
    ensures
        r matches Ok(m) ==> is_sample_covariance(m, rat_rows(rm.rows@)),
        r == Err::<CovarianceMatrix, CovarianceError>(CovarianceError::InsufficientSamples)
            <==> rm.n_samples < 2,
        r matches Err(e) ==> e == CovarianceError::InsufficientSamples || e
            == CovarianceError::ArithmeticOverflow,
{
    if rm.n_samples < 2 {
        return Err(CovarianceError::InsufficientSamples);
    }
    let n = rm.rows.len();
    let n_samples = rm.n_samples;
    if n_samples - 1 > (u32::MAX as usize) {
        return Err(CovarianceError::ArithmeticOverflow);
    }
    let divisor = Ratio::from_int(((n_samples - 1) as u32) as i64);
    let means = match row_means(&rm.rows) {
        Some(v) => v,
        None => { return Err(CovarianceError::ArithmeticOverflow); },
    };
    let ghost rows = rat_rows(rm.rows@);
    crate::linalg::rows_wf(&rm.rows);
    let mut devs: Vec<Vec<Ratio>> = Vec::new();
    let mut i: usize = 0;
    while i < n
        invariant
            n == rm.rows@.len(),
            rm.wf(),
            rm.n_samples >= 2,
            rows == rat_rows(rm.rows@),
            means@.len() == n,
            forall|k: int| 0 <= k < n ==> rat_eq(
                (#[trigger] means@[k])@,
                rat_mean(rat_values(rm.rows@[k]@)),
            ),
            0 <= i <= n,
            devs@.len() == i,
            forall|k: int| 0 <= k < i ==> (#[trigger] devs@[k])@.len() == rm.n_samples,
            forall|k: int, u: int| 0 <= k < i && 0 <= u < rm.n_samples ==> rat_eq(
                #[trigger] rat_values(devs@[k]@)[u],
                dev_seq(rows[k])[u],
            ),
            forall|k: int| 0 <= k < i ==> rat_seq_wf(rat_values((#[trigger] devs@[k])@)),
        decreases n - i,
    {
        let d = match deviation_row(&rm.rows[i], &means[i]) {
            Some(v) => v,
            None => { return Err(CovarianceError::ArithmeticOverflow); },
        };
        proof {
            assert(rows[i as int] == rat_values(rm.rows@[i as int]@));
        }
        devs.push(d);
        i += 1;
    }
    let mut ut: Vec<Vec<Ratio>> = Vec::new();
    let mut a: usize = 0;
    while a < n
        invariant
            n == rm.rows@.len(),
            rm.wf(),
            rows == rat_rows(rm.rows@),
            divisor@ == rat_of_int(rm.n_samples as int - 1),
            rm.n_samples >= 2,
            devs@.len() == n,
            forall|k: int| 0 <= k < n ==> (#[trigger] devs@[k])@.len() == rm.n_samples,
            forall|k: int, u: int| 0 <= k < n && 0 <= u < rm.n_samples ==> rat_eq(
                #[trigger] rat_values(devs@[k]@)[u],
                dev_seq(rows[k])[u],
            ),
            forall|k: int| 0 <= k < n ==> rat_seq_wf(rat_values((#[trigger] devs@[k])@)),
            forall|k: int| 0 <= k < n ==> rat_seq_wf(#[trigger] rows[k]),
            forall|k: int| 0 <= k < n ==> (#[trigger] rows[k]).len() == rm.n_samples,
            0 <= a <= n,
            ut@.len() == a,
            forall|x: int| 0 <= x < a ==> (#[trigger] ut@[x])@.len() == n - x,
            forall|x: int, y: int| 0 <= x < a && x <= y < n ==> rat_eq(
                (#[trigger] ut@[x]@[y - x])@,
                cov_entry(rows[x], rows[y]),
            ),
        decreases n - a,
    {
        let mut row_ut: Vec<Ratio> = Vec::new();
        let mut b: usize = a;
        while b < n
            invariant
                n == rm.rows@.len(),
                rm.wf(),
                rows == rat_rows(rm.rows@),
                divisor@ == rat_of_int(rm.n_samples as int - 1),
                rm.n_samples >= 2,
                devs@.len() == n,
                forall|k: int| 0 <= k < n ==> (#[trigger] devs@[k])@.len() == rm.n_samples,
                forall|k: int, u: int| 0 <= k < n && 0 <= u < rm.n_samples ==> rat_eq(
                    #[trigger] rat_values(devs@[k]@)[u],
                    dev_seq(rows[k])[u],
                ),
                forall|k: int| 0 <= k < n ==> rat_seq_wf(rat_values((#[trigger] devs@[k])@)),
                forall|k: int| 0 <= k < n ==> rat_seq_wf(#[trigger] rows[k]),
                forall|k: int| 0 <= k < n ==> (#[trigger] rows[k]).len() == rm.n_samples,
                0 <= a < n,
                a <= b <= n,
                row_ut@.len() == b - a,
                forall|y: int| a <= y < b ==> rat_eq(
                    (#[trigger] row_ut@[y - a])@,
                    cov_entry(rows[a as int], rows[y]),
                ),
            decreases n - b,
        {
            let c0 = match dot_ratios(&devs[a], &devs[b]) {
                Some(q) => q,
                None => { return Err(CovarianceError::ArithmeticOverflow); },
            };
            let c = match c0.div(&divisor) {
                Some(q) => q,
                None => { return Err(CovarianceError::ArithmeticOverflow); },
            };
            proof {
                use_type_invariant(&c0);
                use_type_invariant(&c);
                use_type_invariant(&divisor);
                let da = rat_values(devs@[a as int]@);
                let db = rat_values(devs@[b as int]@);
                let sa = dev_seq(rows[a as int]);
                let sb = dev_seq(rows[b as int]);
                lemma_rat_dot_congr(da, db, sa, sb);
                lemma_dot_wf(da, db);
                lemma_rat_eq_trans(c0@, rat_dot(da, db), rat_dot(sa, sb));
                lemma_rat_div_congr(c0@, divisor@, rat_dot(sa, sb), divisor@);
                lemma_rat_ops_wf(c0@, divisor@);
                lemma_rat_eq_trans(
                    c@,
                    rat_div(c0@, divisor@),
                    cov_entry(rows[a as int], rows[b as int]),
                );
            }
            row_ut.push(c);
            b += 1;
        }
        ut.push(row_ut);
        a += 1;
    }
    Ok(finish_matrix(ut, Ghost(rows), n))
}

/// Pair backend: one independent work unit per unordered pair, each
/// computing its covariance from the rows and precomputed means, the way
/// the parallel kernel schedules them.
pub fn calculate_covariance_matrix_parallel(rm: &ReturnMatrix) -> (r: Result<
    CovarianceMatrix,
    CovarianceError,
>)
    requires
        rm.wf(),
    ensures
        r matches Ok(m) ==> is_sample_covariance(m, rat_rows(rm.rows@)),
        r == Err::<CovarianceMatrix, CovarianceError>(CovarianceError::InsufficientSamples)
            <==> rm.n_samples < 2,
        r matches Err(e) ==> e == CovarianceError::InsufficientSamples || e
            == CovarianceError::ArithmeticOverflow,
{
    if rm.n_samples < 2 {
        return Err(CovarianceError::InsufficientSamples);
    }
    let n = rm.rows.len();
    let n_samples = rm.n_samples;
    if n_samples - 1 > (u32::MAX as usize) {
        return Err(CovarianceError::ArithmeticOverflow);
    }
    let divisor = Ratio::from_int(((n_samples - 1) as u32) as i64);
    let means = match row_means(&rm.rows) {
        Some(v) => v,
        None => { return Err(CovarianceError::ArithmeticOverflow); },
    };
    let ghost rows = rat_rows(rm.rows@);
    crate::linalg::rows_wf(&rm.rows);
    let mut ut: Vec<Vec<Ratio>> = Vec::new();
    let mut a: usize = 0;
    while a < n
        invariant
            n == rm.rows@.len(),
            rm.wf(),
            rows == rat_rows(rm.rows@),
            divisor@ == rat_of_int(rm.n_samples as int - 1),
            rm.n_samples >= 2,
            means@.len() == n,
            forall|k: int| 0 <= k < n ==> rat_eq(
                (#[trigger] means@[k])@,
                rat_mean(rat_values(rm.rows@[k]@)),
            ),
            forall|k: int| 0 <= k < n ==> rat_seq_wf(#[trigger] rows[k]),
            forall|k: int| 0 <= k < n ==> (#[trigger] rows[k]).len() == rm.n_samples,
            0 <= a <= n,
            ut@.len() == a,
            forall|x: int| 0 <= x < a ==> (#[trigger] ut@[x])@.len() == n - x,
            forall|x: int, y: int| 0 <= x < a && x <= y < n ==> rat_eq(
                (#[trigger] ut@[x]@[y - x])@,
                cov_entry(rows[x], rows[y]),
            ),
        decreases n - a,
    {
        let mut row_ut: Vec<Ratio> = Vec::new();
        let mut b: usize = a;
        while b < n
            invariant
                n == rm.rows@.len(),
                rm.wf(),
                rows == rat_rows(rm.rows@),
                divisor@ == rat_of_int(rm.n_samples as int - 1),
                rm.n_samples >= 2,
                means@.len() == n,
                forall|k: int| 0 <= k < n ==> rat_eq(
                    (#[trigger] means@[k])@,
                    rat_mean(rat_values(rm.rows@[k]@)),
                ),
                forall|k: int| 0 <= k < n ==> rat_seq_wf(#[trigger] rows[k]),
                forall|k: int| 0 <= k < n ==> (#[trigger] rows[k]).len() == rm.n_samples,
                0 <= a < n,
                a <= b <= n,
                row_ut@.len() == b - a,
                forall|y: int| a <= y < b ==> rat_eq(
                    (#[trigger] row_ut@[y - a])@,
                    cov_entry(rows[a as int], rows[y]),
                ),
            decreases n - b,
        {
            proof {
                assert(rows[a as int] == rat_values(rm.rows@[a as int]@));
                assert(rows[b as int] == rat_values(rm.rows@[b as int]@));
            }
            let c = match pair_covariance(
                &rm.rows[a],
                &rm.rows[b],
                &means[a],
                &means[b],
                &divisor,
            ) {
                Some(q) => q,
                None => { return Err(CovarianceError::ArithmeticOverflow); },
            };
            row_ut.push(c);
            b += 1;
        }
        ut.push(row_ut);
        a += 1;
    }
    Ok(finish_matrix(ut, Ghost(rows), n))
}

/// Estimate the covariance matrix of a batch through the chosen backend.
///
/// Whatever the engine, a successful result is the matrix of unbiased
/// sample covariances of the assets' returns, exactly symmetric.
pub fn calculate_covariance_matrix(batch: &Vec<PriceSeries>, engine: Engine) -> (r: Result<
    CovarianceMatrix,
    CovarianceError,
>)
    ensures
        r matches Ok(m) ==> {
            &&& m.wf()
            &&& m.n_assets == asset_series(batch@).len()
            &&& asset_series(batch@).len() >= 2
            &&& forall|i: int, j: int|
                0 <= i < m.n_assets && 0 <= j < m.n_assets ==> rat_eq(
                    #[trigger] rat_values(m.entries@[i]@)[j],
                    cov_entry(
                        series_returns(asset_series(batch@)[i]),
                        series_returns(asset_series(batch@)[j]),
                    ),
                )
            &&& forall|i: int, j: int|
                0 <= i < m.n_assets && 0 <= j < m.n_assets ==> #[trigger] m.entries@[i]@[j]
                    == m.entries@[j]@[i]
        },
        r == Err::<CovarianceMatrix, CovarianceError>(CovarianceError::InsufficientObservations)
            <==> asset_series(batch@).len() < 2,
        r == Err::<CovarianceMatrix, CovarianceError>(CovarianceError::UnevenSampleLength)
            <==> (asset_series(batch@).len() >= 2 && exists|j: int|
                0 <= j < asset_series(batch@).len() && (#[trigger] asset_series(
                    batch@,
                )[j]).prices@.len() != asset_series(batch@)[0].prices@.len()),
        r == Err::<CovarianceMatrix, CovarianceError>(CovarianceError::ZeroPrice)
            ==> exists|k: int|
                0 <= k < asset_series(batch@).len() && has_zero_divisor(
                    #[trigger] asset_series(batch@)[k],
                ),
        r == Err::<CovarianceMatrix, CovarianceError>(CovarianceError::InsufficientSamples)
            ==> asset_series(batch@).len() >= 2 && asset_series(batch@)[0].prices@.len() == 2,
        small_prices(batch@) && zero_free(batch@) && asset_series(batch@).len() >= 2 && (
        forall|j: int|
            0 <= j < asset_series(batch@).len() ==> (#[trigger] asset_series(
                batch@,
            )[j]).prices@.len() == 2) ==> r == Err::<CovarianceMatrix, CovarianceError>(
            CovarianceError::InsufficientSamples,
        ),
{
    let ghost two_price_batch = small_prices(batch@) && zero_free(batch@) && asset_series(
        batch@,
    ).len() >= 2 && (forall|j: int|
        0 <= j < asset_series(batch@).len() ==> (#[trigger] asset_series(
            batch@,
        )[j]).prices@.len() == 2);
    let rm = match extract_returns(batch) {
        Ok(v) => v,
        Err(e) => {
            proof {
                if two_price_batch {
                    assert forall|j: int|
                        0 <= j < asset_series(batch@).len() implies (#[trigger] asset_series(
                        batch@,
                    )[j]).prices@.len() == asset_series(batch@)[0].prices@.len() by {
                        assert(asset_series(batch@)[0].prices@.len() == 2);
                    }
                    assert(false);
                }
            }
            return Err(e);
        },
    };
    crate::linalg::rows_wf(&rm.rows);
    let result = match engine {
        Engine::Reference => calculate_covariance_matrix_reference(&rm),
        Engine::Parallel => calculate_covariance_matrix_parallel(&rm),
    };
    proof {
        if two_price_batch {
            assert(asset_series(batch@)[0].prices@.len() == 2);
            assert(rm.rows@[0]@.len() == rm.n_samples);
            assert(rm.rows@[0]@.len() == series_returns(asset_series(batch@)[0]).len());
            assert(rm.n_samples == 1);
            assert(result == Err::<CovarianceMatrix, CovarianceError>(
                CovarianceError::InsufficientSamples,
            ));
        }
    }
    let m = match result {
        Ok(m) => m,
        Err(e) => {
            proof {
                if e == CovarianceError::InsufficientSamples {
                    crate::series::lemma_asset_lens(batch@);
                    assert(rm.n_samples == 1);
                    assert(rm.rows@[0]@.len() == rm.n_samples);
                    assert(rm.rows@[0]@.len() == series_returns(asset_series(batch@)[0]).len());
                    assert(asset_series(batch@)[0].prices@.len() == 2);
                }
            }
            return Err(
                if matches!(e, CovarianceError::InsufficientSamples) {
                    CovarianceError::InsufficientSamples
                } else {
                    CovarianceError::ArithmeticOverflow
                },
            );
        },
    };
    proof {
        let assets_g = asset_series(batch@);
        let rows = rat_rows(rm.rows@);
        crate::series::lemma_asset_lens(batch@);
        assert forall|i: int, j: int|
            0 <= i < m.n_assets && 0 <= j < m.n_assets implies rat_eq(
            #[trigger] rat_values(m.entries@[i]@)[j],
            cov_entry(series_returns(assets_g[i]), series_returns(assets_g[j])),
        ) by {
            assert(rows[i] == rat_values(rm.rows@[i]@));
            assert(rows[j] == rat_values(rm.rows@[j]@));
            lemma_cov_entry_congr(
                rows[i],
                rows[j],
                series_returns(assets_g[i]),
                series_returns(assets_g[j]),
            );
            lemma_cov_entry_wf(rows[i], rows[j]);
            lemma_rat_eq_trans(
                rat_values(m.entries@[i]@)[j],
                cov_entry(rows[i], rows[j]),
                cov_entry(series_returns(assets_g[i]), series_returns(assets_g[j])),
            );
        }
    }
    Ok(m)
}

} // verus!
