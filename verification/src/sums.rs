use vstd::prelude::*;
use crate::PayoutVault;

verus! {

/// Sum of a sequence of escrow balances.
pub open spec fn sum_seq(s: Seq<u128>) -> int
    decreases s.len(),
{
    if s.len() == 0 {
        0
    } else {
        sum_seq(s.drop_last()) + s.last()
    }
}

/// Sum of the balances of a sequence of proceeds vaults.
pub open spec fn sum_payouts(s: Seq<PayoutVault>) -> int
    decreases s.len(),
{
    if s.len() == 0 {
        0
    } else {
        sum_payouts(s.drop_last()) + s.last().balance
    }
}

/// Total of the per-share escrow balances over a sequence of earnings
/// ledgers, one ledger per panel.
pub open spec fn sum_ledgers(s: Seq<Seq<u128>>) -> int
    decreases s.len(),
{
    if s.len() == 0 {
        0
    } else {
        sum_ledgers(s.drop_last()) + sum_seq(s.last())
    }
}

pub proof fn lemma_sum_seq_push(s: Seq<u128>, x: u128)
    ensures
        sum_seq(s.push(x)) == sum_seq(s) + x,
{
    assert(s.push(x).drop_last() =~= s);
}

pub proof fn lemma_sum_seq_update(s: Seq<u128>, k: int, v: u128)
    requires
        0 <= k < s.len(),
    ensures
        sum_seq(s.update(k, v)) == sum_seq(s) - s[k] + v,
    decreases s.len(),
{
    if k == s.len() - 1 {
        assert(s.update(k, v).drop_last() =~= s.drop_last());
    } else {
        assert(s.update(k, v).drop_last() =~= s.drop_last().update(k, v));
        lemma_sum_seq_update(s.drop_last(), k, v);
    }
}

/// Adding the same amount to every balance of a sequence adds the amount
/// once per entry to the total.
pub proof fn lemma_sum_seq_all_inc(s: Seq<u128>, t: Seq<u128>, d: int)
    requires
        t.len() == s.len(),
        forall|k: int| 0 <= k < s.len() ==> t[k] == s[k] + d,
    ensures
        sum_seq(t) == sum_seq(s) + s.len() * d,
    decreases s.len(),
{
    if s.len() == 0 {
        assert(s.len() * d == 0);
    } else {
        let n = s.len() as int;
        assert(forall|k: int|
            0 <= k < s.drop_last().len() ==> t.drop_last()[k] == s.drop_last()[k] + d);
        lemma_sum_seq_all_inc(s.drop_last(), t.drop_last(), d);
        assert(t.last() == s.last() + d);
        assert((n - 1) * d + d == n * d) by (nonlinear_arith);
    }
}

/// Appending zero balances leaves a sum unchanged.
pub proof fn lemma_sum_seq_append_zeros(s: Seq<u128>, n: nat)
    ensures
        sum_seq(s + Seq::new(n, |i: int| 0u128)) == sum_seq(s),
    decreases n,
{
    if n == 0 {
        assert(s + Seq::new(0, |i: int| 0u128) =~= s);
    } else {
        let shorter = s + Seq::new((n - 1) as nat, |i: int| 0u128);
        assert(s + Seq::new(n, |i: int| 0u128) =~= shorter.push(0u128));
        lemma_sum_seq_push(shorter, 0u128);
        lemma_sum_seq_append_zeros(s, (n - 1) as nat);
    }
}

pub proof fn lemma_sum_payouts_push(s: Seq<PayoutVault>, x: PayoutVault)
    ensures
        sum_payouts(s.push(x)) == sum_payouts(s) + x.balance,
{
    assert(s.push(x).drop_last() =~= s);
}

pub proof fn lemma_sum_payouts_update(s: Seq<PayoutVault>, k: int, v: PayoutVault)
    requires
        0 <= k < s.len(),
    ensures
        sum_payouts(s.update(k, v)) == sum_payouts(s) - s[k].balance + v.balance,
    decreases s.len(),
{
    if k == s.len() - 1 {
        assert(s.update(k, v).drop_last() =~= s.drop_last());
    } else {
        assert(s.update(k, v).drop_last() =~= s.drop_last().update(k, v));
        lemma_sum_payouts_update(s.drop_last(), k, v);
    }
}

pub proof fn lemma_sum_ledgers_push(s: Seq<Seq<u128>>, x: Seq<u128>)
    ensures
        sum_ledgers(s.push(x)) == sum_ledgers(s) + sum_seq(x),
{
    assert(s.push(x).drop_last() =~= s);
}

pub proof fn lemma_sum_ledgers_update(s: Seq<Seq<u128>>, k: int, v: Seq<u128>)
    requires
        0 <= k < s.len(),
    ensures
        sum_ledgers(s.update(k, v)) == sum_ledgers(s) - sum_seq(s[k]) + sum_seq(v),
    decreases s.len(),
{
    if k == s.len() - 1 {
        assert(s.update(k, v).drop_last() =~= s.drop_last());
    } else {
        assert(s.update(k, v).drop_last() =~= s.drop_last().update(k, v));
        lemma_sum_ledgers_update(s.drop_last(), k, v);
    }
}

} // verus!
