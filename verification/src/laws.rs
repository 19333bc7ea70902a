use vstd::prelude::*;
use crate::panel::OwnershipProof;
use crate::{lemma_fee_bounds, Solarix};

verus! {

/// Share conservation: for every panel, the shares still in custody and the
/// sold shares (one earnings ledger entry each) always add up to the fixed
/// total supply. Every operation preserves well-formedness, so this holds
/// in every reachable state.
pub proof fn lemma_share_conservation(s: Solarix, p: int)
    requires
        s.wf(),
        s.has_panel(p),
    ensures
        s.custody_count(p) + s.sold_count(p) == s.panel_at(p).total_supply,
{
    assert(s.panel_wf(p));
}

/// Earnings split accounting: the fee, the per-share credit taken once per
/// sold share, and the division residue together make up the deposited
/// amount exactly; no value vanishes in the split.
pub proof fn lemma_earnings_split_accounting(s: Solarix, p: int, amount: u64)
    requires
        s.wf(),
        s.has_panel(p),
        s.sold_count(p) > 0,
    ensures
        s.deposit_fee(amount) + s.sold_count(p) * s.deposit_share(p, amount) + s.deposit_residue(
            p,
            amount,
        ) == amount,
{
    lemma_fee_bounds(amount as int, s.earnings_fee as int);
    let rem = amount - s.deposit_fee(amount);
    vstd::arithmetic::div_mod::lemma_fundamental_div_mod(rem, s.sold_count(p));
}

/// Claim authorization: an ownership proof carrying one panel's share class
/// is never accepted against any other panel, because share classes are
/// distinct across panels. Together with the contract of
/// [`Solarix::claim_earnings`], the cross claim fails with the
/// not-authorized error and changes nothing.
pub proof fn lemma_claim_cross_panel_rejected(
    s: Solarix,
    x: u64,
    y: u64,
    nft_proof: OwnershipProof,
)
    requires
        s.wf(),
        s.has_panel(x as int),
        s.has_panel(y as int),
        x != y,
        nft_proof.resource_address == s.panel_at(x as int).nft_resource_address,
    ensures
        !s.claim_earnings_accepted(y, nft_proof),
{
    assert(s.panel_wf(x as int));
    assert(s.panel_wf(y as int));
}

/// Idempotent empty claim: let `s2` be the state a successful earnings
/// claim leaves behind. With no deposit in between, a second claim with the
/// same proof is again accepted — so it is no error — and withdraws exactly
/// zero, leaving the ledger as it is.
pub proof fn lemma_idempotent_empty_claim(
    s1: Solarix,
    s2: Solarix,
    panel_id: u64,
    nft_proof: OwnershipProof,
)
    requires
        s1.wf(),
        s1.claim_earnings_accepted(panel_id, nft_proof),
        s2.ledgers_view() == s1.ledgers_view().update(
            panel_id as int,
            s1.entries(panel_id as int).update(
                s1.entry_index(panel_id as int, nft_proof.local_id as int),
                0u128,
            ),
        ),
        s2.custody_view() == s1.custody_view(),
        s2.panels@ == s1.panels@,
    ensures
        s2.claim_earnings_accepted(panel_id, nft_proof),
        s2.entry_balance(panel_id as int, nft_proof.local_id as int) == 0,
        s2.entries(panel_id as int).update(
            s2.entry_index(panel_id as int, nft_proof.local_id as int),
            0u128,
        ) =~= s2.entries(panel_id as int),
{
    let p = panel_id as int;
    let nft = nft_proof.local_id as int;
    let k = s1.entry_index(p, nft);
    assert(s1.panel_wf(p));
    assert(s2.ledgers_view().len() == s1.ledgers_view().len());
    assert(s2.entries(p) == s2.ledgers_view()[p]);
    assert(s2.entries(p) == s1.entries(p).update(k, 0u128));
    assert(s2.sold_count(p) == s1.sold_count(p));
    assert(s2.entry_balance(p, nft) == 0);
}

} // verus!


