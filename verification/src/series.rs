//! Simple periodic returns from aligned price series.
//!
//! A batch is an ordered collection of named price series, reduced to one
//! series per asset identifier as a map from symbols to prices would hold
//! them: the last occurrence of a symbol with at least two prices wins, and
//! series with fewer than two prices carry no return information and are
//! silently skipped. Each asset yields one return per consecutive price
//! pair, `(p[t+1] - p[t]) / p[t]`. A zero price in divisor position is
//! rejected rather than propagated as a non-finite value.

use vstd::prelude::*;

verus! {

use crate::errors::CovarianceError;
use crate::linalg::{rat_values, rat_sum, lemma_rat_sum_congr};
use crate::rational::{
    Rat, Ratio, rat_div, rat_sub, rat_eq, rat_wf, rat_of_int, rat_small, rat_modest, iabs,
    lemma_rat_div_congr, lemma_rat_eq_trans, lemma_rat_ops_wf,
};

/// A named, time-ordered sequence of prices.
#[derive(Debug, Clone)]
pub struct PriceSeries {
    pub symbol: String,
    pub prices: Vec<Ratio>,
}

/// A named sequence of simple periodic returns.
#[derive(Debug, Clone)]
pub struct ReturnSeries {
    pub symbol: String,
    pub returns: Vec<Ratio>,
}

/// The simple return from price `prev` to price `cur`.
pub open spec fn simple_return(prev: Rat, cur: Rat) -> Rat {
    rat_div(rat_sub(cur, prev), prev)
}

/// The return sequence a price series induces; empty below two prices.
pub open spec fn series_returns(ps: PriceSeries) -> Seq<Rat> {
    if ps.prices@.len() < 2 {
        Seq::empty()
    } else {
        Seq::new(
            (ps.prices@.len() - 1) as nat,
            |t: int| simple_return(ps.prices@[t]@, ps.prices@[t + 1]@),
        )
    }
}

/// Replace the first series bearing `x`'s symbol, or append `x`.
pub open spec fn upsert_series(s: Seq<PriceSeries>, x: PriceSeries) -> Seq<PriceSeries>
    decreases s.len(),
{
    if s.len() == 0 {
        seq![x]
    } else if s[0].symbol@ == x.symbol@ {
        seq![x] + s.subrange(1, s.len() as int)
    } else {
        seq![s[0]] + upsert_series(s.subrange(1, s.len() as int), x)
    }
}

/// One series per asset identifier, as a map from symbols to prices would
/// hold them: among the series with at least two prices, the last
/// occurrence of a symbol supplies the prices, at the position of the
/// symbol's first such occurrence.
pub open spec fn asset_series(batch: Seq<PriceSeries>) -> Seq<PriceSeries>
    decreases batch.len(),
{
    if batch.len() == 0 {
        Seq::empty()
    } else {
        let rest = asset_series(batch.drop_last());
        if batch.last().prices@.len() >= 2 {
            upsert_series(rest, batch.last())
        } else {
            rest
        }
    }
}

/// Every price component of every asset is small, so per-return arithmetic
/// cannot leave the 128-bit range.
pub open spec fn small_prices(batch: Seq<PriceSeries>) -> bool {
    forall|j: int, t: int|
        0 <= j < asset_series(batch).len() && 0 <= t < asset_series(
            batch,
        )[j].prices@.len() ==> rat_small((#[trigger] asset_series(batch)[j].prices@[t])@)
}

/// No asset divides by a zero price.
pub open spec fn zero_free(batch: Seq<PriceSeries>) -> bool {
    forall|k: int| 0 <= k < asset_series(batch).len() ==> !has_zero_divisor(
        #[trigger] asset_series(batch)[k],
    )
}

/// Some price in divisor position is zero, so a return is undefined.
pub open spec fn has_zero_divisor(ps: PriceSeries) -> bool {
    exists|t: int| 0 <= t < ps.prices@.len() - 1 && (#[trigger] ps.prices@[t])@.n == 0
}

/// `rs` holds exactly the returns of `ps`, under the same name.
pub open spec fn returns_match(rs: ReturnSeries, ps: PriceSeries) -> bool {
    &&& rs.symbol@ == ps.symbol@
    &&& rs.returns@.len() == series_returns(ps).len()
    &&& forall|t: int| 0 <= t < rs.returns@.len() ==> rat_eq(
        #[trigger] rat_values(rs.returns@)[t],
        series_returns(ps)[t],
    )
}

/// When no series bears the symbol, an upsert appends.
pub proof fn lemma_upsert_fresh(s: Seq<PriceSeries>, x: PriceSeries)
    requires
        forall|k: int| 0 <= k < s.len() ==> (#[trigger] s[k]).symbol@ != x.symbol@,
    ensures
        upsert_series(s, x) == s.push(x),
    decreases s.len(),
{
    if s.len() == 0 {
        assert(upsert_series(s, x) =~= s.push(x));
    } else {
        assert(s[0].symbol@ != x.symbol@);
        let tail = s.subrange(1, s.len() as int);
        assert forall|k: int| 0 <= k < tail.len() implies (#[trigger] tail[k]).symbol@
            != x.symbol@ by {
            assert(tail[k] == s[k + 1]);
        }
        lemma_upsert_fresh(tail, x);
        assert(seq![s[0]] + tail.push(x) =~= s.push(x));
    }
}

/// When `k0` is the first series bearing the symbol, an upsert updates it.
pub proof fn lemma_upsert_update(s: Seq<PriceSeries>, x: PriceSeries, k0: int)
    requires
        0 <= k0 < s.len(),
        s[k0].symbol@ == x.symbol@,
        forall|k: int| 0 <= k < k0 ==> (#[trigger] s[k]).symbol@ != x.symbol@,
    ensures
        upsert_series(s, x) == s.update(k0, x),
    decreases s.len(),
{
    let tail = s.subrange(1, s.len() as int);
    if k0 == 0 {
        assert(seq![x] + tail =~= s.update(0, x));
    } else {
        assert(s[0].symbol@ != x.symbol@);
        assert forall|k: int| 0 <= k < k0 - 1 implies (#[trigger] tail[k]).symbol@
            != x.symbol@ by {
            assert(tail[k] == s[k + 1]);
        }
        assert(tail[k0 - 1] == s[k0]);
        lemma_upsert_update(tail, x, k0 - 1);
        assert(seq![s[0]] + tail.update(k0 - 1, x) =~= s.update(k0, x));
    }
}

/// Every entry of an upsert is the new series or one of the old ones.
pub proof fn lemma_upsert_entries(s: Seq<PriceSeries>, x: PriceSeries)
    ensures
        forall|k: int|
            0 <= k < upsert_series(s, x).len() ==> (#[trigger] upsert_series(s, x)[k] == x
                || exists|j: int| 0 <= j < s.len() && upsert_series(s, x)[k] == s[j]),
    decreases s.len(),
{
    let up = upsert_series(s, x);
    if s.len() == 0 {
    } else if s[0].symbol@ == x.symbol@ {
        assert forall|k: int| 0 <= k < up.len() implies (#[trigger] up[k] == x || exists|j: int|
            0 <= j < s.len() && up[k] == s[j]) by {
            if k > 0 {
                assert(up[k] == s[k]);
            }
        }
    } else {
        let tail = s.subrange(1, s.len() as int);
        lemma_upsert_entries(tail, x);
        assert forall|k: int| 0 <= k < up.len() implies (#[trigger] up[k] == x || exists|j: int|
            0 <= j < s.len() && up[k] == s[j]) by {
            if k == 0 {
                assert(up[0] == s[0]);
            } else {
                let tup = upsert_series(tail, x);
                assert(up[k] == tup[k - 1]);
                if tup[k - 1] != x {
                    let jj = choose|jj: int| 0 <= jj < tail.len() && tup[k - 1] == tail[jj];
                    assert(up[k] == s[jj + 1]);
                }
            }
        }
    }
}

pub proof fn lemma_asset_snoc(s: Seq<PriceSeries>, i: int)
    requires
        0 <= i < s.len(),
    ensures
        asset_series(s.subrange(0, i + 1)) == (if s[i].prices@.len() >= 2 {
            upsert_series(asset_series(s.subrange(0, i)), s[i])
        } else {
            asset_series(s.subrange(0, i))
        }),
{
    assert(s.subrange(0, i + 1).drop_last() =~= s.subrange(0, i));
    assert(s.subrange(0, i + 1).last() == s[i]);
}

/// Every asset has at least two prices.
pub proof fn lemma_asset_lens(s: Seq<PriceSeries>)
    ensures
        forall|k: int| 0 <= k < asset_series(s).len() ==> (#[trigger] asset_series(
            s,
        )[k]).prices@.len() >= 2,
    decreases s.len(),
{
    if s.len() > 0 {
        lemma_asset_lens(s.drop_last());
        let rest = asset_series(s.drop_last());
        if s.last().prices@.len() >= 2 {
            lemma_upsert_entries(rest, s.last());
            assert forall|k: int| 0 <= k < asset_series(s).len() implies (
            #[trigger] asset_series(s)[k]).prices@.len() >= 2 by {
                if asset_series(s)[k] != s.last() {
                    let jj = choose|jj: int|
                        0 <= jj < rest.len() && asset_series(s)[k] == rest[jj];
                    assert(rest[jj].prices@.len() >= 2);
                }
            }
        }
    }
}

/// One surviving price series per asset identifier.
///
/// A symbol's prices are those of its last occurrence with at least two
/// prices; the survivor sits at the position of the symbol's first such
/// occurrence. Series with fewer than two prices never displace anything.
pub(crate) fn dedup_series(batch: &Vec<PriceSeries>) -> (r: Vec<PriceSeries>)
    ensures
        r@.len() == asset_series(batch@).len(),
        forall|k: int|
            0 <= k < r@.len() ==> (#[trigger] r@[k]).symbol@ == asset_series(
                batch@,
            )[k].symbol@ && r@[k].prices@ == asset_series(batch@)[k].prices@,
{
    let n = batch.len();
    let mut out: Vec<PriceSeries> = Vec::new();
    let mut j: usize = 0;
    while j < n
        invariant
            n == batch@.len(),
            0 <= j <= n,
            out@.len() == asset_series(batch@.subrange(0, j as int)).len(),
            forall|k: int|
                0 <= k < out@.len() ==> (#[trigger] out@[k]).symbol@ == asset_series(
                    batch@.subrange(0, j as int),
                )[k].symbol@ && out@[k].prices@ == asset_series(
                    batch@.subrange(0, j as int),
                )[k].prices@,
        decreases n - j,
    {
        let ps = &batch[j];
        proof {
            lemma_asset_snoc(batch@, j as int);
        }
        let ghost pre = asset_series(batch@.subrange(0, j as int));
        let ghost post = asset_series(batch@.subrange(0, j as int + 1));
        if ps.prices.len() >= 2 {
            let fresh = PriceSeries {
                symbol: ps.symbol.clone(),
                prices: crate::linalg::copy_row(&ps.prices),
            };
            proof {
                assert(fresh.symbol@ == batch@[j as int].symbol@);
                assert(fresh.prices@ == batch@[j as int].prices@);
            }
            let m = out.len();
            let mut pos: usize = 0;
            let mut found: bool = false;
            let mut k: usize = 0;
            while k < m
                invariant
                    m == out@.len(),
                    0 <= k <= m,
                    fresh.symbol@ == batch@[j as int].symbol@,
                    found ==> pos < k && out@[pos as int].symbol@ == fresh.symbol@,
                    found ==> forall|u: int|
                        0 <= u < pos ==> (#[trigger] out@[u]).symbol@ != fresh.symbol@,
                    !found ==> forall|u: int|
                        0 <= u < k ==> (#[trigger] out@[u]).symbol@ != fresh.symbol@,
                decreases m - k,
            {
                if !found {
                    let cand = &out[k];
                    if cand.symbol.eq(&fresh.symbol) {
                        pos = k;
                        found = true;
                    }
                }
                k += 1;
            }
            if found {
                proof {
                    assert(pre[pos as int].symbol@ == batch@[j as int].symbol@);
                    assert forall|u: int| 0 <= u < pos implies (#[trigger] pre[u]).symbol@
                        != batch@[j as int].symbol@ by {
                        assert(out@[u].symbol@ == pre[u].symbol@);
                    }
                    lemma_upsert_update(pre, batch@[j as int], pos as int);
                }
                let ghost old_out = out@;
                out[pos] = fresh;
                proof {
                    assert(post == pre.update(pos as int, batch@[j as int]));
                    assert forall|k2: int| 0 <= k2 < out@.len() implies ((#[trigger] out@[k2])
                        .symbol@ == post[k2].symbol@ && out@[k2].prices@
                        == post[k2].prices@) by {
                        if k2 != pos as int {
                            assert(out@[k2] == old_out[k2]);
                            assert(post[k2] == pre[k2]);
                        }
                    }
                }
            } else {
                proof {
                    assert forall|u: int| 0 <= u < pre.len() implies (#[trigger] pre[u]).symbol@
                        != batch@[j as int].symbol@ by {
                        assert(out@[u].symbol@ == pre[u].symbol@);
                    }
                    lemma_upsert_fresh(pre, batch@[j as int]);
                }
                let ghost old_out = out@;
                out.push(fresh);
                proof {
                    assert(post == pre.push(batch@[j as int]));
                    assert forall|k2: int| 0 <= k2 < out@.len() implies ((#[trigger] out@[k2])
                        .symbol@ == post[k2].symbol@ && out@[k2].prices@
                        == post[k2].prices@) by {
                        if k2 < old_out.len() {
                            assert(out@[k2] == old_out[k2]);
                            assert(post[k2] == pre[k2]);
                        } else {
                            assert(out@[k2] == fresh);
                            assert(post[k2] == batch@[j as int]);
                        }
                    }
                }
            }
        }
        j += 1;
    }
    proof {
        assert(batch@.subrange(0, n as int) =~= batch@);
    }
    out
}

/// Convert a batch of price series to one return series per asset.
///
/// As a map from symbols to prices would, a symbol occurring several times
/// keeps a single series, the last occurrence with at least two prices
/// winning; series with fewer than two prices are silently skipped. A zero
/// price in divisor position of a surviving asset is rejected rather than
/// propagated as a non-finite value. Success is owed whenever every
/// asset's price components are small and no asset divides by a zero
/// price; larger components may leave `i128` during the exact arithmetic,
/// which is reported as `ArithmeticOverflow`.
pub fn calculate_simple_returns(batch: &Vec<PriceSeries>) -> (r: Result<
    Vec<ReturnSeries>,
    CovarianceError,
>)
    ensures
        r matches Ok(rs) ==> {
            &&& rs@.len() == asset_series(batch@).len()
            &&& forall|j: int| 0 <= j < rs@.len() ==> returns_match(
                #[trigger] rs@[j],
                asset_series(batch@)[j],
            )
            &&& forall|j: int| 0 <= j < asset_series(batch@).len() ==> !has_zero_divisor(
                #[trigger] asset_series(batch@)[j],
            )
        },
        r matches Err(e) && e == CovarianceError::ZeroPrice ==> exists|k: int|
            0 <= k < asset_series(batch@).len() && has_zero_divisor(
                #[trigger] asset_series(batch@)[k],
            ),
        r matches Err(e) ==> e == CovarianceError::ZeroPrice || e
            == CovarianceError::ArithmeticOverflow,
        small_prices(batch@) && zero_free(batch@) ==> r is Ok,
{
    let assets = dedup_series(batch);
    proof {
        lemma_asset_lens(batch@);
    }
    let n = assets.len();
    let mut out: Vec<ReturnSeries> = Vec::new();
    let mut j: usize = 0;
    while j < n
        invariant
            n == assets@.len(),
            assets@.len() == asset_series(batch@).len(),
            forall|k: int|
                0 <= k < assets@.len() ==> (#[trigger] assets@[k]).symbol@ == asset_series(
                    batch@,
                )[k].symbol@ && assets@[k].prices@ == asset_series(batch@)[k].prices@,
            forall|k: int|
                0 <= k < asset_series(batch@).len() ==> (#[trigger] asset_series(
                    batch@,
                )[k]).prices@.len() >= 2,
            0 <= j <= n,
            out@.len() == j,
            forall|k: int| 0 <= k < j ==> returns_match(
                #[trigger] out@[k],
                asset_series(batch@)[k],
            ),
            forall|k: int| 0 <= k < j ==> !has_zero_divisor(
                #[trigger] asset_series(batch@)[k],
            ),
        decreases n - j,
    {
        let ps = &assets[j];
        let len = ps.prices.len();
        proof {
            assert(ps.prices@ == asset_series(batch@)[j as int].prices@);
        }
        let mut rets: Vec<Ratio> = Vec::new();
        let mut t: usize = 0;
        while t < len - 1
            invariant
                n == assets@.len(),
                assets@.len() == asset_series(batch@).len(),
                0 <= j < n,
                ps == assets@[j as int],
                ps.prices@ == asset_series(batch@)[j as int].prices@,
                len == ps.prices@.len(),
                2 <= len,
                0 <= t <= len - 1,
                rets@.len() == t,
                forall|u: int| 0 <= u < t ==> rat_eq(
                    #[trigger] rat_values(rets@)[u],
                    series_returns(*ps)[u],
                ),
                forall|u: int| 0 <= u < t ==> (#[trigger] ps.prices@[u])@.n != 0,
            decreases len - 1 - t,
        {
            let prev = ps.prices[t];
            let cur = ps.prices[t + 1];
            proof {
                use_type_invariant(&prev);
                use_type_invariant(&cur);
                assert(asset_series(batch@)[j as int].prices@[t as int] == prev);
                assert(asset_series(batch@)[j as int].prices@[t as int + 1] == cur);
            }
            if prev.is_zero() {
                proof {
                    assert(has_zero_divisor(asset_series(batch@)[j as int]));
                }
                return Err(CovarianceError::ZeroPrice);
            }
            let diff = match cur.sub(&prev) {
                Some(q) => q,
                None => {
                    proof {
                        if small_prices(batch@) {
                            assert(rat_small(prev@) && rat_small(cur@));
                            assert(false);
                        }
                    }
                    return Err(CovarianceError::ArithmeticOverflow);
                },
            };
            let ret = match diff.div(&prev) {
                Some(q) => q,
                None => {
                    proof {
                        if small_prices(batch@) {
                            assert(rat_small(prev@) && rat_small(cur@));
                            use_type_invariant(&diff);
                            let cn = iabs(cur@.n);
                            let pn = iabs(prev@.n);
                            assert(cn * prev@.d + pn * cur@.d < 0x4000_0000_0000_0000)
                                by (nonlinear_arith)
                                requires
                                    0 <= cn < 0x4000_0000,
                                    0 <= pn < 0x4000_0000,
                                    0 < prev@.d < 0x4000_0000,
                                    0 < cur@.d < 0x4000_0000;
                            assert(cur@.d * prev@.d < 0x4000_0000_0000_0000)
                                by (nonlinear_arith)
                                requires
                                    0 < prev@.d < 0x4000_0000,
                                    0 < cur@.d < 0x4000_0000;
                            assert(rat_modest(diff@));
                            assert(rat_modest(prev@));
                            assert(prev@.n != 0);
                            assert(false);
                        }
                    }
                    return Err(CovarianceError::ArithmeticOverflow);
                },
            };
            proof {
                use_type_invariant(&diff);
                use_type_invariant(&ret);
                lemma_rat_div_congr(diff@, prev@, rat_sub(cur@, prev@), prev@);
                lemma_rat_ops_wf(diff@, prev@);
                lemma_rat_eq_trans(
                    ret@,
                    rat_div(diff@, prev@),
                    simple_return(prev@, cur@),
                );
            }
            let ghost prev_rets = rets@;
            rets.push(ret);
            proof {
                assert forall|u: int| 0 <= u < t + 1 implies rat_eq(
                    #[trigger] rat_values(rets@)[u],
                    series_returns(*ps)[u],
                ) by {
                    if u < t as int {
                        assert(rat_values(rets@)[u] == prev_rets[u]@);
                        assert(rat_values(prev_rets)[u] == prev_rets[u]@);
                    } else {
                        assert(rat_values(rets@)[u] == ret@);
                        assert(series_returns(*ps)[u] == simple_return(prev@, cur@));
                    }
                }
            }
            t += 1;
        }
        let rs = ReturnSeries { symbol: ps.symbol.clone(), returns: rets };
        proof {
            let target = asset_series(batch@)[j as int];
            assert(series_returns(*ps) =~= series_returns(target));
            assert(rs.symbol@ == target.symbol@);
            assert(returns_match(rs, target));
            assert(!has_zero_divisor(target));
        }
        out.push(rs);
        j += 1;
    }
    Ok(out)
}

/// The arithmetic mean of a sequence of values.
pub open spec fn rat_mean(s: Seq<Rat>) -> Rat {
    rat_div(rat_sum(s), rat_of_int(s.len() as int))
}

/// Reduce every asset of a batch to the mean of its returns, in batch
/// order; the result pairs each symbol with its expected return.
pub fn calculate_expected_returns(batch: &Vec<PriceSeries>) -> (r: Result<
    Vec<(String, Ratio)>,
    CovarianceError,
>)
    ensures
        r matches Ok(m) ==> {
            &&& m@.len() == asset_series(batch@).len()
            &&& forall|j: int| 0 <= j < m@.len() ==> (#[trigger] m@[j]).0@ == asset_series(
                batch@,
            )[j].symbol@
            &&& forall|j: int| 0 <= j < m@.len() ==> rat_eq(
                (#[trigger] m@[j]).1@,
                rat_mean(series_returns(asset_series(batch@)[j])),
            )
        },
        r matches Err(e) ==> e == CovarianceError::ZeroPrice || e
            == CovarianceError::ArithmeticOverflow,
        small_prices(batch@) && zero_free(batch@) && (forall|k: int|
            0 <= k < asset_series(batch@).len() ==> (#[trigger] asset_series(
                batch@,
            )[k]).prices@.len() == 2) ==> r is Ok,
{
    let all = match calculate_simple_returns(batch) {
        Ok(v) => v,
        Err(e) => { return Err(e); },
    };
    let n = all.len();
    let mut out: Vec<(String, Ratio)> = Vec::new();
    let mut j: usize = 0;
    while j < n
        invariant
            n == all@.len(),
            all@.len() == asset_series(batch@).len(),
            forall|k: int| 0 <= k < all@.len() ==> returns_match(
                #[trigger] all@[k],
                asset_series(batch@)[k],
            ),
            0 <= j <= n,
            out@.len() == j,
            forall|k: int| 0 <= k < j ==> (#[trigger] out@[k]).0@ == asset_series(
                batch@,
            )[k].symbol@,
            forall|k: int| 0 <= k < j ==> rat_eq(
                (#[trigger] out@[k]).1@,
                rat_mean(series_returns(asset_series(batch@)[k])),
            ),
        decreases n - j,
    {
        let rs = &all[j];
        let m = match mean_of(&rs.returns) {
            Some(q) => q,
            None => {
                proof {
                    if small_prices(batch@) && zero_free(batch@) && (forall|k: int|
                        0 <= k < asset_series(batch@).len() ==> (#[trigger] asset_series(
                            batch@,
                        )[k]).prices@.len() == 2) {
                        assert(returns_match(all@[j as int], asset_series(batch@)[j as int]));
                        assert(asset_series(batch@)[j as int].prices@.len() == 2);
                        assert(rs.returns@.len() == 1);
                        assert(false);
                    }
                }
                return Err(CovarianceError::ArithmeticOverflow);
            },
        };
        crate::linalg::ratios_wf(&rs.returns);
        proof {
            use_type_invariant(&m);
            crate::linalg::lemma_rat_sum_wf(rat_values(rs.returns@));
            let here = series_returns(asset_series(batch@)[j as int]);
            lemma_rat_sum_congr(rat_values(rs.returns@), here);
            lemma_rat_div_congr(
                rat_sum(rat_values(rs.returns@)),
                rat_of_int(rs.returns@.len() as int),
                rat_sum(here),
                rat_of_int(here.len() as int),
            );
            lemma_rat_ops_wf(
                rat_sum(rat_values(rs.returns@)),
                rat_of_int(rs.returns@.len() as int),
            );
            lemma_rat_eq_trans(
                m@,
                rat_mean(rat_values(rs.returns@)),
                rat_mean(here),
            );
        }
        let ghost prev_out = out@;
        out.push((rs.symbol.clone(), m));
        j += 1;
    }
    Ok(out)
}

/// Checked mean of a vector of fractions; `None` for the empty vector or on
/// a value leaving `i128`. A single-element vector always succeeds.
pub fn mean_of(v: &Vec<Ratio>) -> (r: Option<Ratio>)
    ensures
        r matches Some(q) ==> rat_eq(q@, rat_mean(rat_values(v@))) && rat_wf(q@),
        v@.len() == 1 ==> r is Some,
{
    let len = v.len();
    if len == 0 || len > (u32::MAX as usize) {
        return None;
    }
    let s = match crate::linalg::sum_ratios(v) {
        Some(q) => q,
        None => { return None; },
    };
    let divisor = Ratio::from_int((len as u32) as i64);
    let m = match s.div(&divisor) {
        Some(q) => q,
        None => { return None; },
    };
    proof {
        use_type_invariant(&m);
        lemma_rat_div_congr(
            s@,
            divisor@,
            rat_sum(rat_values(v@)),
            rat_of_int(v@.len() as int),
        );
        lemma_rat_ops_wf(s@, divisor@);
        lemma_rat_eq_trans(
            m@,
            rat_div(s@, divisor@),
            rat_mean(rat_values(v@)),
        );
    }
    Some(m)
}

} // verus!
