//! Exact comparison of the mean scores that the alignment heuristics use.

use vstd::prelude::*;

verus! {

/// The mean of score `a` (a sum and a count) is at least that of `b`.
pub open spec fn mean_at_least(a: (nat, nat), b: (nat, nat)) -> bool {
    a.0 * b.1 >= b.0 * a.1
}

proof fn lemma_compare_by_quotient(a: int, ca: int, qa: int, ra: int, b: int, cb: int, qb: int, rb: int)
    requires
        ca > 0,
        cb > 0,
        a == qa * ca + ra,
        0 <= ra < ca,
        b == qb * cb + rb,
        0 <= rb < cb,
    ensures
        qa > qb ==> a * cb > b * ca,
        qa < qb ==> a * cb < b * ca,
        qa == qb ==> (a * cb >= b * ca <==> ra * cb >= rb * ca),
{
    assert(a * cb == qa * ca * cb + ra * cb) by (nonlinear_arith)
        requires
            a == qa * ca + ra,
    ;
    assert(b * ca == qb * ca * cb + rb * ca) by (nonlinear_arith)
        requires
            b == qb * cb + rb,
    ;
    assert(0 <= ra * cb < ca * cb) by (nonlinear_arith)
        requires
            0 <= ra < ca,
            cb > 0,
    ;
    assert(0 <= rb * ca < ca * cb) by (nonlinear_arith)
        requires
            0 <= rb < cb,
            ca > 0,
    ;
    if qa > qb {
        assert(qa * ca * cb >= qb * ca * cb + ca * cb) by (nonlinear_arith)
            requires
                qa >= qb + 1,
                ca > 0,
                cb > 0,
        ;
    }
    if qa < qb {
        assert(qb * ca * cb >= qa * ca * cb + ca * cb) by (nonlinear_arith)
            requires
                qb >= qa + 1,
                ca > 0,
                cb > 0,
        ;
    }
}

/// Whether the mean of `a_sum` over `a_count` is at least that of `b_sum`
/// over `b_count`.
pub fn mean_is_at_least(a_sum: u128, a_count: u64, b_sum: u128, b_count: u64) -> (r: bool)
    requires
        a_count > 0,
        b_count > 0,
    ensures
        r == mean_at_least((a_sum as nat, a_count as nat), (b_sum as nat, b_count as nat)),
{
    let ca = a_count as u128;
    let cb = b_count as u128;
    let qa = a_sum / ca;
    let ra = a_sum % ca;
    let qb = b_sum / cb;
    let rb = b_sum % cb;
    proof {
        vstd::arithmetic::div_mod::lemma_fundamental_div_mod(a_sum as int, ca as int);
        vstd::arithmetic::div_mod::lemma_fundamental_div_mod(b_sum as int, cb as int);
        lemma_compare_by_quotient(
            a_sum as int,
            ca as int,
            qa as int,
            ra as int,
            b_sum as int,
            cb as int,
            qb as int,
            rb as int,
        );
        assert(ra * cb <= u64::MAX * u64::MAX) by (nonlinear_arith)
            requires
                ra < ca,
                ca <= u64::MAX,
                cb <= u64::MAX,
        ;
        assert(rb * ca <= u64::MAX * u64::MAX) by (nonlinear_arith)
            requires
                rb < cb,
                ca <= u64::MAX,
                cb <= u64::MAX,
        ;
    }
    if qa != qb {
        qa > qb
    } else {
        ra * cb >= rb * ca
    }
}

} // verus!
