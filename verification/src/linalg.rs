//! Sums, dot products and matrix-vector products over exact fractions.
//!
//! The spec functions here give the mathematical meaning of the aggregate
//! operations; the executable functions compute them with checked arithmetic
//! and report `None` when an intermediate value leaves `i128`.
//!
//! No bound on the inputs alone can promise success here: summing exact
//! fractions multiplies denominators, so the reduced components of a
//! running sum can grow with the product of all denominators seen, and the
//! contracts do not promise lowest terms (that would take a verified
//! greatest-common-divisor theory). Aggregates therefore stay conditional —
//! a success denotes the exact value, a `None` reports the overflow —
//! while the single-step operations on [`Ratio`] do owe success on modest
//! operands.

use vstd::prelude::*;

verus! {

use crate::rational::{
    Rat, Ratio, rat_add, rat_mul, rat_eq, rat_wf, rat_zero, rat_of_int, rat_modest,
    lemma_rat_add_congr, lemma_rat_mul_congr, lemma_rat_eq_trans, lemma_rat_ops_wf,
};

/// The ghost values of a vector of fractions.
pub open spec fn rat_values(v: Seq<Ratio>) -> Seq<Rat> {
    Seq::new(v.len(), |i: int| v[i]@)
}

/// Sum of a sequence of fraction values, folded from the left.
pub open spec fn rat_sum(s: Seq<Rat>) -> Rat
    decreases s.len(),
{
    if s.len() == 0 {
        rat_zero()
    } else {
        rat_add(rat_sum(s.drop_last()), s.last())
    }
}

/// Elementwise product; meaningful when both sequences have `a`'s length.
pub open spec fn rat_pointwise_mul(a: Seq<Rat>, b: Seq<Rat>) -> Seq<Rat> {
    Seq::new(a.len(), |i: int| rat_mul(a[i], b[i]))
}

/// Inner product of two equally long sequences.
pub open spec fn rat_dot(a: Seq<Rat>, b: Seq<Rat>) -> Rat {
    rat_sum(rat_pointwise_mul(a, b))
}

/// Every fraction in the sequence has a positive denominator.
pub open spec fn rat_seq_wf(s: Seq<Rat>) -> bool {
    forall|i: int| 0 <= i < s.len() ==> rat_wf(#[trigger] s[i])
}

/// The rows of a matrix of fraction values.
pub open spec fn rat_rows(m: Seq<Vec<Ratio>>) -> Seq<Seq<Rat>> {
    Seq::new(m.len(), |i: int| rat_values(m[i]@))
}

/// Matrix-vector product, row by row.
pub open spec fn rat_matvec(rows: Seq<Seq<Rat>>, x: Seq<Rat>) -> Seq<Rat> {
    Seq::new(rows.len(), |i: int| rat_dot(rows[i], x))
}

pub proof fn lemma_rat_sum_wf(s: Seq<Rat>)
    requires
        rat_seq_wf(s),
    ensures
        rat_wf(rat_sum(s)),
    decreases s.len(),
{
    if s.len() == 0 {
    } else {
        lemma_rat_sum_wf(s.drop_last());
        lemma_rat_ops_wf(rat_sum(s.drop_last()), s.last());
    }
}

/// Sums of pointwise equal sequences are equal.
pub proof fn lemma_rat_sum_congr(s1: Seq<Rat>, s2: Seq<Rat>)
    requires
        s1.len() == s2.len(),
        forall|i: int| 0 <= i < s1.len() ==> rat_eq(#[trigger] s1[i], s2[i]),
    ensures
        rat_eq(rat_sum(s1), rat_sum(s2)),
    decreases s1.len(),
{
    if s1.len() == 0 {
    } else {
        lemma_rat_sum_congr(s1.drop_last(), s2.drop_last());
        lemma_rat_add_congr(rat_sum(s1.drop_last()), s1.last(), rat_sum(s2.drop_last()), s2.last());
    }
}

/// Dot products of pointwise equal sequences are equal.
pub proof fn lemma_rat_dot_congr(a1: Seq<Rat>, b1: Seq<Rat>, a2: Seq<Rat>, b2: Seq<Rat>)
    requires
        a1.len() == b1.len(),
        a1.len() == a2.len(),
        a1.len() == b2.len(),
        forall|i: int| 0 <= i < a1.len() ==> rat_eq(#[trigger] a1[i], a2[i]),
        forall|i: int| 0 <= i < b1.len() ==> rat_eq(#[trigger] b1[i], b2[i]),
    ensures
        rat_eq(rat_dot(a1, b1), rat_dot(a2, b2)),
{
    let p1 = rat_pointwise_mul(a1, b1);
    let p2 = rat_pointwise_mul(a2, b2);
    assert forall|i: int| 0 <= i < p1.len() implies rat_eq(#[trigger] p1[i], p2[i]) by {
        lemma_rat_mul_congr(a1[i], b1[i], a2[i], b2[i]);
    }
    lemma_rat_sum_congr(p1, p2);
}

/// A sum of values each equal to zero is zero.
pub proof fn lemma_rat_sum_zeros(s: Seq<Rat>)
    requires
        forall|i: int| 0 <= i < s.len() ==> rat_eq(#[trigger] s[i], rat_zero()),
    ensures
        rat_eq(rat_sum(s), rat_zero()),
    decreases s.len(),
{
    if s.len() > 0 {
        lemma_rat_sum_zeros(s.drop_last());
        lemma_rat_add_congr(rat_sum(s.drop_last()), s.last(), rat_zero(), rat_zero());
    }
}

/// A sum whose terms are all zero but one equals that one term.
pub proof fn lemma_rat_sum_single(s: Seq<Rat>, i: int, t: Rat)
    requires
        0 <= i < s.len(),
        rat_eq(s[i], t),
        forall|j: int| 0 <= j < s.len() && j != i ==> rat_eq(#[trigger] s[j], rat_zero()),
        rat_wf(t),
    ensures
        rat_eq(rat_sum(s), t),
    decreases s.len(),
{
    if i == s.len() - 1 {
        lemma_rat_sum_zeros(s.drop_last());
        lemma_rat_add_congr(rat_sum(s.drop_last()), s.last(), rat_zero(), t);
        assert(rat_eq(rat_add(rat_zero(), t), t));
        lemma_rat_ops_wf(rat_zero(), t);
        crate::rational::lemma_rat_eq_trans(rat_sum(s), rat_add(rat_zero(), t), t);
    } else {
        lemma_rat_sum_single(s.drop_last(), i, t);
        lemma_rat_add_congr(rat_sum(s.drop_last()), s.last(), t, rat_zero());
        assert(rat_eq(rat_add(t, rat_zero()), t));
        lemma_rat_ops_wf(t, rat_zero());
        crate::rational::lemma_rat_eq_trans(rat_sum(s), rat_add(t, rat_zero()), t);
    }
}

/// A sum of `len` values each equal to `v` equals `len * v`.
pub proof fn lemma_rat_sum_const(s: Seq<Rat>, v: Rat)
    requires
        forall|i: int| 0 <= i < s.len() ==> rat_eq(#[trigger] s[i], v),
        rat_wf(v),
        rat_seq_wf(s),
    ensures
        rat_eq(rat_sum(s), rat_mul(rat_of_int(s.len() as int), v)),
    decreases s.len(),
{
    let n = s.len() as int;
    if s.len() == 0 {
        assert(0 * v.n == 0) by (nonlinear_arith);
        assert(0 * (1 * v.d) == 0) by (nonlinear_arith);
        assert(rat_eq(rat_sum(s), rat_mul(rat_of_int(0), v)));
    } else {
        lemma_rat_sum_const(s.drop_last(), v);
        let mk = rat_mul(rat_of_int(n - 1), v);
        assert(s.last() == s[n - 1]);
        lemma_rat_add_congr(rat_sum(s.drop_last()), s.last(), mk, v);
        let a = v.n;
        let d = v.d;
        assert((((n - 1) * a) * d + a * (1 * d)) * (1 * d) == (n * a) * ((1 * d) * d))
            by (nonlinear_arith);
        assert(rat_eq(rat_add(mk, v), rat_mul(rat_of_int(n), v)));
        lemma_rat_ops_wf(rat_of_int(n - 1), v);
        lemma_rat_ops_wf(mk, v);
        crate::rational::lemma_rat_eq_trans(
            rat_sum(s),
            rat_add(mk, v),
            rat_mul(rat_of_int(n), v),
        );
    }
}

/// Recover well-formedness of every entry of a vector of fractions.
pub fn ratios_wf(v: &Vec<Ratio>)
    ensures
        rat_seq_wf(rat_values(v@)),
{
    let n = v.len();
    let mut i: usize = 0;
    while i < n
        invariant
            n == v@.len(),
            0 <= i <= n,
            forall|k: int| 0 <= k < i ==> rat_wf(#[trigger] rat_values(v@)[k]),
        decreases n - i,
    {
        let x = v[i];
        proof {
            use_type_invariant(&x);
            assert(rat_values(v@)[i as int] == x@);
        }
        i += 1;
    }
}

/// Recover well-formedness of every entry of a matrix of fractions.
pub fn rows_wf(m: &Vec<Vec<Ratio>>)
    ensures
        forall|i: int| 0 <= i < m@.len() ==> rat_seq_wf(rat_values((#[trigger] m@[i])@)),
{
    let n = m.len();
    let mut i: usize = 0;
    while i < n
        invariant
            n == m@.len(),
            0 <= i <= n,
            forall|k: int| 0 <= k < i ==> rat_seq_wf(rat_values((#[trigger] m@[k])@)),
        decreases n - i,
    {
        ratios_wf(&m[i]);
        i += 1;
    }
}

/// Copy a row of fractions.
pub fn copy_row(v: &Vec<Ratio>) -> (r: Vec<Ratio>)
    ensures
        r@ == v@,
{
    let n = v.len();
    let mut r: Vec<Ratio> = Vec::new();
    let mut i: usize = 0;
    while i < n
        invariant
            n == v@.len(),
            0 <= i <= n,
            r@ =~= v@.subrange(0, i as int),
        decreases n - i,
    {
        r.push(v[i]);
        i += 1;
    }
    proof {
        assert(r@ =~= v@);
    }
    r
}

/// Checked sum of a vector of fractions.
pub fn sum_ratios(v: &Vec<Ratio>) -> (r: Option<Ratio>)
    ensures
        r matches Some(q) ==> rat_eq(q@, rat_sum(rat_values(v@))) && rat_wf(q@),
        v@.len() == 1 ==> r is Some,
{
    let n = v.len();
    let mut acc = Ratio::zero();
    let mut i: usize = 0;
    while i < n
        invariant
            n == v@.len(),
            0 <= i <= n,
            rat_eq(acc@, rat_sum(rat_values(v@).subrange(0, i as int))),
            rat_wf(acc@),
            i == 0 ==> acc@ == rat_zero(),
        decreases n - i,
    {
        let x = v[i];
        let next = match acc.add(&x) {
            Some(q) => q,
            None => {
                proof {
                    if v@.len() == 1 {
                        assert(i == 0);
                        assert(false);
                    }
                }
                return None;
            },
        };
        proof {
            use_type_invariant(&x);
            use_type_invariant(&next);
            let s = rat_values(v@);
            assert(s.subrange(0, i + 1).drop_last() =~= s.subrange(0, i as int));
            assert(s.subrange(0, i + 1).last() == x@);
            lemma_rat_add_congr(acc@, x@, rat_sum(s.subrange(0, i as int)), x@);
            lemma_rat_ops_wf(acc@, x@);
            lemma_rat_eq_trans(
                next@,
                rat_add(acc@, x@),
                rat_add(rat_sum(s.subrange(0, i as int)), x@),
            );
        }
        acc = next;
        i += 1;
    }
    proof {
        assert(rat_values(v@).subrange(0, n as int) =~= rat_values(v@));
        use_type_invariant(&acc);
    }
    Some(acc)
}

/// Checked inner product of two equally long vectors of fractions.
pub fn dot_ratios(a: &Vec<Ratio>, b: &Vec<Ratio>) -> (r: Option<Ratio>)
    requires
        a@.len() == b@.len(),
    ensures
        r matches Some(q) ==> rat_eq(q@, rat_dot(rat_values(a@), rat_values(b@))) && rat_wf(q@),
        a@.len() == 1 && rat_modest(rat_values(a@)[0]) && rat_modest(rat_values(b@)[0])
            ==> r is Some,
{
    let n = a.len();
    let ghost pm = rat_pointwise_mul(rat_values(a@), rat_values(b@));
    let mut acc = Ratio::zero();
    let mut i: usize = 0;
    while i < n
        invariant
            n == a@.len(),
            a@.len() == b@.len(),
            pm == rat_pointwise_mul(rat_values(a@), rat_values(b@)),
            0 <= i <= n,
            rat_eq(acc@, rat_sum(pm.subrange(0, i as int))),
            rat_wf(acc@),
            i == 0 ==> acc@ == rat_zero(),
        decreases n - i,
    {
        let x = a[i];
        let y = b[i];
        let t = match x.mul(&y) {
            Some(q) => q,
            None => {
                proof {
                    if a@.len() == 1 {
                        assert(i == 0);
                        assert(rat_values(a@)[0] == x@);
                        assert(rat_values(b@)[0] == y@);
                    }
                }
                return None;
            },
        };
        let next = match acc.add(&t) {
            Some(q) => q,
            None => {
                proof {
                    if a@.len() == 1 {
                        assert(i == 0);
                        assert(false);
                    }
                }
                return None;
            },
        };
        proof {
            use_type_invariant(&t);
            use_type_invariant(&next);
            assert(pm.subrange(0, i + 1).drop_last() =~= pm.subrange(0, i as int));
            assert(pm.subrange(0, i + 1).last() == pm[i as int]);
            assert(pm[i as int] == rat_mul(x@, y@));
            lemma_rat_add_congr(acc@, t@, rat_sum(pm.subrange(0, i as int)), pm[i as int]);
            lemma_rat_ops_wf(acc@, t@);
            lemma_rat_eq_trans(
                next@,
                rat_add(acc@, t@),
                rat_add(rat_sum(pm.subrange(0, i as int)), pm[i as int]),
            );
        }
        acc = next;
        i += 1;
    }
    proof {
        assert(pm.subrange(0, n as int) =~= pm);
        use_type_invariant(&acc);
    }
    Some(acc)
}

/// Checked matrix-vector product; every row must have the vector's length.
pub fn matvec_ratios(m: &Vec<Vec<Ratio>>, x: &Vec<Ratio>) -> (r: Option<Vec<Ratio>>)
    requires
        forall|i: int| 0 <= i < m@.len() ==> (#[trigger] m@[i])@.len() == x@.len(),
    ensures
        r matches Some(v) ==> {
            &&& v@.len() == m@.len()
            &&& forall|i: int| 0 <= i < m@.len() ==> rat_eq(
                #[trigger] rat_values(v@)[i],
                rat_matvec(rat_rows(m@), rat_values(x@))[i],
            )
            &&& rat_seq_wf(rat_values(v@))
        },
        m@.len() == 1 && x@.len() == 1 && rat_modest(rat_values(m@[0]@)[0]) && rat_modest(
            rat_values(x@)[0],
        ) ==> r is Some,
{
    let n = m.len();
    let mut out: Vec<Ratio> = Vec::new();
    let mut i: usize = 0;
    while i < n
        invariant
            n == m@.len(),
            forall|k: int| 0 <= k < m@.len() ==> (#[trigger] m@[k])@.len() == x@.len(),
            0 <= i <= n,
            out@.len() == i,
            forall|k: int| 0 <= k < i ==> rat_eq(
                #[trigger] rat_values(out@)[k],
                rat_matvec(rat_rows(m@), rat_values(x@))[k],
            ),
            forall|k: int| 0 <= k < i ==> rat_wf(#[trigger] rat_values(out@)[k]),
        decreases n - i,
    {
        let row = &m[i];
        let d = match dot_ratios(row, x) {
            Some(q) => q,
            None => {
                proof {
                    if m@.len() == 1 && x@.len() == 1 && rat_modest(rat_values(m@[0]@)[0])
                        && rat_modest(rat_values(x@)[0]) {
                        assert(i == 0);
                        assert(row@ == m@[0]@);
                        assert(row@.len() == x@.len());
                        assert(false);
                    }
                }
                return None;
            },
        };
        proof {
            assert(rat_rows(m@)[i as int] == rat_values(m@[i as int]@));
            assert(rat_matvec(rat_rows(m@), rat_values(x@))[i as int]
                == rat_dot(rat_values(m@[i as int]@), rat_values(x@)));
        }
        let ghost prev = out@;
        out.push(d);
        proof {
            assert forall|k: int| 0 <= k < i + 1 implies (rat_eq(
                #[trigger] rat_values(out@)[k],
                rat_matvec(rat_rows(m@), rat_values(x@))[k],
            ) && rat_wf(rat_values(out@)[k])) by {
                if k < i as int {
                    assert(rat_values(out@)[k] == prev[k]@);
                    assert(rat_values(prev)[k] == prev[k]@);
                } else {
                    assert(rat_values(out@)[k] == d@);
                }
            }
        }
        i += 1;
    }
    Some(out)
}

} // verus!
