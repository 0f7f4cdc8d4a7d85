//! Batch range splitter: chunk boundaries for splitting a collection of
//! `total` items into sub-batches of at most `batch_size` items each.

use vstd::prelude::*;
use vstd::arithmetic::div_mod::lemma_fundamental_div_mod_converse;
use crate::error::{Error, EvalErr};

verus! {

/// Number of ranges that cover `[0, total)` in chunks of `b`.
pub open spec fn range_count(total: u64, b: u64) -> int {
    if total == 0 {
        0
    } else {
        (total - 1) as int / b as int + 1
    }
}

/// The upper bound of the `i`-th chunk: `(i + 1) * b`, capped at `total`.
pub open spec fn range_end(total: u64, b: u64, i: int) -> int {
    if (i + 1) * b as int <= total as int {
        (i + 1) * b as int
    } else {
        total as int
    }
}

/// Splits `[0, total)` into contiguous half-open ranges `(offset, limit)`
/// of exactly `batch_size` items each, except that the last range may be
/// shorter. A batch size of zero is a fatal input error. The contract
/// pins each range in closed form and states the structural laws
/// outright: the ranges start at zero, are contiguous and non-empty,
/// their union is exactly `[0, total)`, every range holds at most
/// `batch_size` items and every range but the last exactly `batch_size`;
/// a total of zero yields the empty sequence.
pub fn make_ranges(total: u64, batch_size: u64) -> (r: Result<Vec<(u64, u64)>, Error>)
    ensures
        batch_size == 0 <==> r is Err,
        r is Err ==> r == Result::<Vec<(u64, u64)>, Error>::Err(Error::Eval(EvalErr::ZeroBatchSize)),
        r matches Ok(s) ==> {
            &&& s@.len() == range_count(total, batch_size)
            &&& forall|i: int| 0 <= i < s@.len() ==> #[trigger] s@[i].0 as int == i * batch_size as int
            &&& forall|i: int| 0 <= i < s@.len() ==> #[trigger] s@[i].1 as int == range_end(total, batch_size, i)
            &&& total == 0 ==> s@.len() == 0
            &&& total > 0 ==> s@.len() > 0
            &&& s@.len() > 0 ==> s@[0].0 == 0 && s@[s@.len() - 1].1 == total
            &&& forall|i: int| 0 <= i < s@.len() - 1 ==> #[trigger] s@[i].1 == s@[i + 1].0
            &&& forall|i: int| 0 <= i < s@.len() ==> #[trigger] s@[i].0 < s@[i].1
            &&& forall|i: int| 0 <= i < s@.len() ==> #[trigger] s@[i].1 - s@[i].0 <= batch_size
            &&& forall|i: int| 0 <= i < s@.len() - 1 ==> #[trigger] s@[i].1 - s@[i].0 == batch_size
        },
{
    if batch_size == 0 {
        return Err(Error::Eval(EvalErr::ZeroBatchSize));
    }
    let b: u64 = batch_size;
    let mut res: Vec<(u64, u64)> = Vec::new();
    let mut offset: u64 = 0;
    proof {
        assert(res@.len() == 0);
        assert(res@.len() * (b as int) == 0) by (nonlinear_arith)
            requires res@.len() == 0;
    }
    while offset < total
        invariant
            b > 0,
            res@.len() * b as int <= total as int + b as int,
            offset as int == if res@.len() * b as int <= total as int {
                res@.len() * b as int
            } else {
                total as int
            },
            res@.len() > 0 ==> ((res@.len() - 1) * (b as int)) < total as int,
            forall|i: int| 0 <= i < res@.len() ==> #[trigger] res@[i].0 as int == i * b as int,
            forall|i: int| 0 <= i < res@.len() ==> #[trigger] res@[i].1 as int == range_end(total, b, i),
        decreases total as int - offset as int,
    {
        let ghost k = res@.len() as int;
        assert((k + 1) * b as int == k * b as int + b as int) by (nonlinear_arith);
        let end: u64 = if b >= total - offset {
            total
        } else {
            offset + b
        };
        res.push((offset, end));
        offset = end;
    }
    proof {
        let n = res@.len() as int;
        if total > 0 {
            // The loop exits with `n * b >= total` and `(n - 1) * b < total`,
            // which pins `n` as the ceiling of `total / b`.
            assert(n > 0);
            let q = n - 1;
            let r = (total - 1) as int - q * (b as int);
            assert(q * (b as int) + (b as int) == n * (b as int)) by (nonlinear_arith)
                requires n == q + 1;
            assert((total - 1) as int == q * (b as int) + r);
            assert(0 <= r && r < b as int);
            lemma_fundamental_div_mod_converse((total - 1) as int, b as int, q, r);
        }
        lemma_ranges_form(total, b, res@);
    }
    Ok(res)
}

/// Structural consequences of `make_ranges`'s contract: the ranges start
/// at zero, are contiguous and non-overlapping, their union is exactly
/// `[0, total)`, every range holds at most `batch_size` items, and every
/// range but the last holds exactly `batch_size` items.
pub proof fn lemma_ranges_form(total: u64, b: u64, s: Seq<(u64, u64)>)
    requires
        b > 0,
        s.len() == range_count(total, b),
        forall|i: int| 0 <= i < s.len() ==> #[trigger] s[i].0 as int == i * b as int,
        forall|i: int| 0 <= i < s.len() ==> #[trigger] s[i].1 as int == range_end(total, b, i),
    ensures
        total == 0 ==> s.len() == 0,
        total > 0 ==> s.len() > 0,
        s.len() > 0 ==> s[0].0 == 0,
        s.len() > 0 ==> s[s.len() - 1].1 == total,
        forall|i: int| 0 <= i < s.len() - 1 ==> #[trigger] s[i].1 == s[i + 1].0,
        forall|i: int| 0 <= i < s.len() ==> #[trigger] s[i].0 < s[i].1,
        forall|i: int| 0 <= i < s.len() ==> #[trigger] s[i].1 - s[i].0 <= b,
        forall|i: int| 0 <= i < s.len() - 1 ==> #[trigger] s[i].1 - s[i].0 == b,
{
    let n = s.len() as int;
    if total > 0 {
        let c = (total - 1) as int / b as int;
        assert(c >= 0 && (total - 1) as int == c * (b as int) + ((total - 1) as int % (b as int))
            && 0 <= ((total - 1) as int % (b as int)) && ((total - 1) as int % (b as int)) < b as int) by {
            vstd::arithmetic::div_mod::lemma_fundamental_div_mod((total - 1) as int, b as int);
            vstd::arithmetic::div_mod::lemma_mod_bound((total - 1) as int, b as int);
            vstd::arithmetic::div_mod::lemma_div_pos_is_pos((total - 1) as int, b as int);
        }
        assert(n == c + 1);
        let rr = (total - 1) as int % (b as int);
        // The last range reaches exactly `total`.
        assert(n * (b as int) >= total as int) by (nonlinear_arith)
            requires n == c + 1, (total - 1) as int == c * (b as int) + rr, rr < b as int;
        assert(s[n - 1].1 == total);
    }
    assert forall|i: int| 0 <= i < n implies #[trigger] s[i].0 < s[i].1
        && s[i].1 - s[i].0 <= b by {
        assert((i + 1) * (b as int) == i * (b as int) + (b as int)) by (nonlinear_arith);
        if i < n - 1 {
            lemma_inner_range_full(total, b, n, i);
        } else {
            // the last range: its start lies strictly below `total`
            let c = (total - 1) as int / b as int;
            assert(c >= 0 && c * (b as int) <= (total - 1) as int) by {
                vstd::arithmetic::div_mod::lemma_fundamental_div_mod((total - 1) as int, b as int);
                vstd::arithmetic::div_mod::lemma_mod_bound((total - 1) as int, b as int);
                vstd::arithmetic::div_mod::lemma_div_pos_is_pos((total - 1) as int, b as int);
            }
            assert(i * (b as int) <= c * (b as int)) by (nonlinear_arith)
                requires i <= c, b > 0;
        }
    }
    assert forall|i: int| 0 <= i < n - 1 implies #[trigger] s[i].1 - s[i].0 == b by {
        lemma_inner_range_full(total, b, n, i);
    }
    assert forall|i: int| 0 <= i < n - 1 implies #[trigger] s[i].1 == s[i + 1].0 by {
        lemma_inner_range_full(total, b, n, i);
        assert(s[i].1 as int == (i + 1) * (b as int));
        assert(s[i + 1].0 as int == (i + 1) * (b as int));
    }
}

/// Every range below the last spans exactly `(i * b, (i + 1) * b)`.
proof fn lemma_inner_range_full(total: u64, b: u64, n: int, i: int)
    requires
        b > 0,
        total > 0,
        n == range_count(total, b),
        0 <= i < n - 1,
    ensures
        (i + 1) * (b as int) <= total as int,
        range_end(total, b, i) == (i + 1) * (b as int),
        (i + 1) * (b as int) - i * (b as int) == b as int,
{
    let c = (total - 1) as int / b as int;
    assert(c * (b as int) <= (total - 1) as int && c >= 0) by {
        vstd::arithmetic::div_mod::lemma_fundamental_div_mod((total - 1) as int, b as int);
        vstd::arithmetic::div_mod::lemma_mod_bound((total - 1) as int, b as int);
        vstd::arithmetic::div_mod::lemma_div_pos_is_pos((total - 1) as int, b as int);
    }
    assert((i + 1) * (b as int) <= c * (b as int)) by (nonlinear_arith)
        requires i + 1 <= c, b > 0;
    assert((i + 1) * (b as int) == i * (b as int) + b as int) by (nonlinear_arith);
}

} // verus!
