//! Restricting a batch of price series to chosen symbols.

use vstd::prelude::*;

verus! {

use crate::series::PriceSeries;

/// The symbol list mentions `s`.
pub open spec fn mentions(symbols: Seq<String>, s: Seq<char>) -> bool {
    exists|k: int| 0 <= k < symbols.len() && (#[trigger] symbols[k])@ == s
}

/// The subsequence of the batch whose symbols the list mentions.
pub open spec fn filtered_series(symbols: Seq<String>, batch: Seq<PriceSeries>) -> Seq<
    PriceSeries,
>
    decreases batch.len(),
{
    if batch.len() == 0 {
        Seq::empty()
    } else {
        let rest = filtered_series(symbols, batch.drop_last());
        if mentions(symbols, batch.last().symbol@) {
            rest.push(batch.last())
        } else {
            rest
        }
    }
}

/// Whether the symbol list mentions the given symbol.
fn symbol_in(symbols: &Vec<String>, s: &String) -> (r: bool)
    ensures
        r <==> mentions(symbols@, s@),
{
    let n = symbols.len();
    let mut i: usize = 0;
    while i < n
        invariant
            n == symbols@.len(),
            0 <= i <= n,
            forall|k: int| 0 <= k < i ==> (#[trigger] symbols@[k])@ != s@,
        decreases n - i,
    {
        if s.eq(&symbols[i]) {
            return true;
        }
        i += 1;
    }
    false
}

/// Keep only the series whose symbols appear in the list, in batch order.
pub fn filter_price_map(symbols: &Vec<String>, price_map: Vec<PriceSeries>) -> (r: Vec<
    PriceSeries,
>)
    ensures
        r@ == filtered_series(symbols@, price_map@),
{
    let ghost orig = price_map@;
    let n = price_map.len();
    let mut rest = price_map;
    let mut out: Vec<PriceSeries> = Vec::new();
    let mut i: usize = 0;
    while i < n
        invariant
            n == orig.len(),
            0 <= i <= n,
            rest@ == orig.subrange(i as int, n as int),
            out@ == filtered_series(symbols@, orig.subrange(0, i as int)),
        decreases n - i,
    {
        let ps = rest.remove(0);
        proof {
            assert(ps == orig[i as int]);
            assert(rest@ =~= orig.subrange(i + 1, n as int));
            assert(orig.subrange(0, i + 1).drop_last() =~= orig.subrange(0, i as int));
            assert(orig.subrange(0, i + 1).last() == orig[i as int]);
        }
        if symbol_in(symbols, &ps.symbol) {
            out.push(ps);
        }
        i += 1;
    }
    proof {
        assert(orig.subrange(0, n as int) =~= orig);
    }
    out
}

} // verus!
