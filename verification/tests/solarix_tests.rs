use solarix::errors::MyError;
use solarix::panel::{OwnershipProof, Panel};
use solarix::Solarix;

fn payout_of(s: &Solarix, payee: u64) -> Option<u128> {
    s.payout_vaults.iter().find(|v| v.payee == payee).map(|v| v.balance)
}

#[test]
fn instantiate_starts_empty() {
    let (s, badge) = Solarix::instantiate(2000, 200);
    assert_eq!(badge, s.admin_badge_address);
    assert_eq!(s.panels.len(), 0);
    assert_eq!(s.payout_vaults.len(), 0);
    assert_eq!(s.protocol_collected_fees, 0);
    assert_eq!(s.id_counter, 0);
}

#[test]
fn panel_new_mints_ascending_ids() {
    let (panel, minted) = Panel::new(3, 42, 7, 5).unwrap();
    assert_eq!(panel.total_supply, 5);
    assert_eq!(panel.payment_receiver, 42);
    assert_eq!(panel.price_per_nft, 7);
    assert_eq!(panel.panel_id, 3);
    assert_eq!(panel.nft_resource_address, 3);
    assert_eq!(minted, vec![0, 1, 2, 3, 4]);
}

#[test]
fn panel_new_rejects_zero_price() {
    assert!(matches!(Panel::new(0, 42, 0, 5), Err(MyError::ZeroOrNegativePriceError)));
}

#[test]
fn panel_new_rejects_zero_supply() {
    assert!(matches!(Panel::new(0, 42, 7, 0), Err(MyError::ZeroOrNegativeTotalSupplyError)));
}

#[test]
fn create_rejects_bad_parameters() {
    let (mut s, badge) = Solarix::instantiate(0, 0);
    assert!(matches!(
        s.create_fractionalized_asset(badge, 7, 0, 10),
        Err(MyError::ZeroOrNegativePriceError)
    ));
    assert!(matches!(
        s.create_fractionalized_asset(badge, 7, 5, 0),
        Err(MyError::ZeroOrNegativeTotalSupplyError)
    ));
    assert_eq!(s.panels.len(), 0);
}

#[test]
fn create_assigns_monotonic_ids() {
    let (mut s, badge) = Solarix::instantiate(0, 0);
    let a = s.create_fractionalized_asset(badge, 7, 5, 10).unwrap();
    let b = s.create_fractionalized_asset(badge, 8, 5, 10).unwrap();
    assert_eq!(a, 0);
    assert_eq!(b, 1);
    assert_eq!(s.id_counter, 2);
    assert_eq!(payout_of(&s, 7), Some(0));
    assert_eq!(payout_of(&s, 8), Some(0));
}

#[test]
fn create_keeps_existing_payout_balance() {
    let (mut s, badge) = Solarix::instantiate(0, 0);
    s.create_fractionalized_asset(badge, 7, 5, 10).unwrap();
    // sell one share so the payee's vault holds something
    s.buy_nft(0, 1, 5).unwrap();
    assert_eq!(payout_of(&s, 7), Some(5));
    // a second asset for the same payee must not reset the vault
    s.create_fractionalized_asset(badge, 7, 5, 10).unwrap();
    assert_eq!(payout_of(&s, 7), Some(5));
}

#[test]
fn buy_scenario_exact_payment() {
    // total_supply = 10, unit_price = 5, buy 3 paying exactly 15 with a
    // twenty percent sale fee: custody 7, proceeds 15 * (1 - 0.2) = 12,
    // three ledger entries at zero balance.
    let (mut s, badge) = Solarix::instantiate(2000, 200);
    let id = s.create_fractionalized_asset(badge, 77, 5, 10).unwrap();
    let (shares, change) = s.buy_nft(id, 3, 15).unwrap();
    assert_eq!(change, 0);
    assert_eq!(shares.len(), 3);
    // shares leave custody highest local id first
    let ids: Vec<u64> = shares.iter().map(|n| n.local_id).collect();
    assert_eq!(ids, vec![9, 8, 7]);
    assert!(shares.iter().all(|n| n.data.asset_id == id));
    assert_eq!(s.non_fungible_vaults[0].len(), 7);
    assert_eq!(s.earnings_vaults_maps[0].len(), 3);
    assert!(s.earnings_vaults_maps[0].iter().all(|b| *b == 0));
    assert_eq!(payout_of(&s, 77), Some(12));
    assert_eq!(s.protocol_collected_fees, 3);
    // share conservation
    assert_eq!(
        s.non_fungible_vaults[0].len() + s.earnings_vaults_maps[0].len(),
        s.panels[0].total_supply as usize
    );
}

#[test]
fn buy_returns_change() {
    let (mut s, badge) = Solarix::instantiate(0, 0);
    let id = s.create_fractionalized_asset(badge, 77, 5, 10).unwrap();
    let (shares, change) = s.buy_nft(id, 2, 13).unwrap();
    assert_eq!(shares.len(), 2);
    assert_eq!(change, 3);
    assert_eq!(payout_of(&s, 77), Some(10));
}

#[test]
fn buy_unknown_asset_fails() {
    let (mut s, _) = Solarix::instantiate(0, 0);
    assert!(matches!(s.buy_nft(9, 1, 100), Err(MyError::AssetNotFound)));
}

#[test]
fn buy_underpayment_rejected_and_mutates_nothing() {
    let (mut s, badge) = Solarix::instantiate(2000, 200);
    let id = s.create_fractionalized_asset(badge, 77, 5, 10).unwrap();
    let r = s.buy_nft(id, 3, 14);
    assert!(matches!(r, Err(MyError::InsufficientTokenAmount { expected: 15, found: 14 })));
    assert_eq!(s.non_fungible_vaults[0].len(), 10);
    assert_eq!(s.earnings_vaults_maps[0].len(), 0);
    assert_eq!(payout_of(&s, 77), Some(0));
    assert_eq!(s.protocol_collected_fees, 0);
}

#[test]
fn buy_oversell_rejected_and_leaves_custody_unchanged() {
    let (mut s, badge) = Solarix::instantiate(0, 0);
    let id = s.create_fractionalized_asset(badge, 77, 5, 3).unwrap();
    let r = s.buy_nft(id, 5, 25);
    assert!(matches!(r, Err(MyError::InsufficientSupply { requested: 5, available: 3 })));
    assert_eq!(s.non_fungible_vaults[0].len(), 3);
    assert_eq!(s.earnings_vaults_maps[0].len(), 0);
    // an exactly fitting purchase still goes through afterwards
    let (shares, _) = s.buy_nft(id, 3, 15).unwrap();
    assert_eq!(shares.len(), 3);
    assert_eq!(s.non_fungible_vaults[0].len(), 0);
}

#[test]
fn deposit_before_sellout_rejected() {
    let (mut s, badge) = Solarix::instantiate(0, 200);
    let id = s.create_fractionalized_asset(badge, 77, 5, 10).unwrap();
    s.buy_nft(id, 9, 45).unwrap();
    assert!(matches!(
        s.deposit_earnings(badge, id, 100),
        Err(MyError::NonFungibleVaultNotEmptyError)
    ));
    assert!(s.earnings_vaults_maps[0].iter().all(|b| *b == 0));
}

#[test]
fn deposit_unknown_asset_fails() {
    let (mut s, badge) = Solarix::instantiate(0, 200);
    assert!(matches!(s.deposit_earnings(badge, 3, 100), Err(MyError::AssetNotFound)));
}

#[test]
fn deposit_scenario_with_residue() {
    // all 10 shares sold, deposit 100 at a two percent earnings fee: the
    // fee is 2, the remaining 98 floor-divides into 9 per share, and the
    // residue 8 is swept into the protocol fee vault with the fee, so the
    // whole 100 stays accounted for.
    let (mut s, badge) = Solarix::instantiate(0, 200);
    let id = s.create_fractionalized_asset(badge, 77, 5, 10).unwrap();
    s.buy_nft(id, 10, 50).unwrap();
    let fees_before = s.protocol_collected_fees;
    s.deposit_earnings(badge, id, 100).unwrap();
    assert!(s.earnings_vaults_maps[0].iter().all(|b| *b == 9));
    assert_eq!(s.protocol_collected_fees - fees_before, 10);
    let split: u128 = s.earnings_vaults_maps[0].iter().sum();
    assert_eq!(split + (s.protocol_collected_fees - fees_before), 100);
}

#[test]
fn deposit_scenario_exact_split() {
    // 98 per share and no residue when the remainder divides evenly
    let (mut s, badge) = Solarix::instantiate(0, 200);
    let id = s.create_fractionalized_asset(badge, 77, 5, 10).unwrap();
    s.buy_nft(id, 10, 50).unwrap();
    let fees_before = s.protocol_collected_fees;
    s.deposit_earnings(badge, id, 1000).unwrap();
    assert!(s.earnings_vaults_maps[0].iter().all(|b| *b == 98));
    assert_eq!(s.protocol_collected_fees - fees_before, 20);
}

#[test]
fn deposits_accumulate_per_share() {
    let (mut s, badge) = Solarix::instantiate(0, 0);
    let id = s.create_fractionalized_asset(badge, 77, 2, 4).unwrap();
    s.buy_nft(id, 4, 8).unwrap();
    s.deposit_earnings(badge, id, 40).unwrap();
    s.deposit_earnings(badge, id, 8).unwrap();
    assert!(s.earnings_vaults_maps[0].iter().all(|b| *b == 12));
}

#[test]
fn claim_earnings_pays_out_and_zeroes() {
    let (mut s, badge) = Solarix::instantiate(0, 0);
    let id = s.create_fractionalized_asset(badge, 77, 5, 2).unwrap();
    let (shares, _) = s.buy_nft(id, 2, 10).unwrap();
    s.deposit_earnings(badge, id, 10).unwrap();
    let share_class = s.panels[0].nft_resource_address;
    let holder = OwnershipProof { resource_address: share_class, local_id: shares[0].local_id };
    let amount = s.claim_earnings(id, holder).unwrap();
    assert_eq!(amount, 5);
    let holder_again =
        OwnershipProof { resource_address: share_class, local_id: shares[0].local_id };
    // idempotent empty claim: a second claim is a successful zero withdrawal
    let second = s.claim_earnings(id, holder_again).unwrap();
    assert_eq!(second, 0);
}

#[test]
fn claim_earnings_unknown_asset_fails() {
    let (mut s, _) = Solarix::instantiate(0, 0);
    let p = OwnershipProof { resource_address: 0, local_id: 0 };
    assert!(matches!(s.claim_earnings(4, p), Err(MyError::AssetNotFound)));
}

#[test]
fn claim_earnings_cross_asset_rejected() {
    // a proof for asset 0's share class never succeeds against asset 1
    let (mut s, badge) = Solarix::instantiate(0, 0);
    let a = s.create_fractionalized_asset(badge, 7, 5, 2).unwrap();
    let b = s.create_fractionalized_asset(badge, 8, 5, 2).unwrap();
    let (shares, _) = s.buy_nft(a, 1, 5).unwrap();
    s.buy_nft(b, 2, 10).unwrap();
    s.deposit_earnings(badge, b, 50).unwrap();
    let proof_for_a =
        OwnershipProof { resource_address: s.panels[0].nft_resource_address, local_id: shares[0].local_id };
    assert!(matches!(
        s.claim_earnings(b, proof_for_a),
        Err(MyError::NotAuthorizedToClaimEarningsError)
    ));
    assert!(s.earnings_vaults_maps[1].iter().all(|bal| *bal == 25));
}

#[test]
fn claim_earnings_unsold_share_rejected() {
    let (mut s, badge) = Solarix::instantiate(0, 0);
    let id = s.create_fractionalized_asset(badge, 7, 5, 4).unwrap();
    s.buy_nft(id, 1, 5).unwrap();
    // local id 0 is still in custody, so no ledger entry exists for it
    let p = OwnershipProof { resource_address: s.panels[0].nft_resource_address, local_id: 0 };
    assert!(matches!(s.claim_earnings(id, p), Err(MyError::NotAuthorizedToClaimEarningsError)));
}

#[test]
fn claim_proceeds_pays_out_and_zeroes() {
    let (mut s, badge) = Solarix::instantiate(0, 0);
    let id = s.create_fractionalized_asset(badge, 77, 5, 10).unwrap();
    s.buy_nft(id, 4, 20).unwrap();
    assert_eq!(s.claim_sales_proceeds(77).unwrap(), 20);
    // the vault stays, emptied; claiming again is a zero withdrawal
    assert_eq!(s.claim_sales_proceeds(77).unwrap(), 0);
}

#[test]
fn claim_proceeds_unknown_payee_rejected() {
    let (mut s, badge) = Solarix::instantiate(0, 0);
    s.create_fractionalized_asset(badge, 77, 5, 10).unwrap();
    assert!(matches!(s.claim_sales_proceeds(99), Err(MyError::NotAuthorizedToClaimPayoutError)));
}

#[test]
fn value_conservation_across_a_session() {
    // everything paid in (minus change) equals everything still in escrow
    // plus everything withdrawn, at the end of a mixed run
    let (mut s, badge) = Solarix::instantiate(2000, 200);
    let id = s.create_fractionalized_asset(badge, 77, 5, 10).unwrap();
    let (_, change) = s.buy_nft(id, 10, 60).unwrap();
    assert_eq!(change, 10);
    s.deposit_earnings(badge, id, 100).unwrap();
    let class = s.panels[0].nft_resource_address;
    let claimed = s.claim_earnings(id, OwnershipProof { resource_address: class, local_id: 3 }).unwrap();
    let proceeds = s.claim_sales_proceeds(77).unwrap();
    let escrow: u128 = s.protocol_collected_fees
        + s.payout_vaults.iter().map(|v| v.balance).sum::<u128>()
        + s.earnings_vaults_maps[0].iter().sum::<u128>();
    let paid_in: u128 = (60 - change) + 100;
    assert_eq!(escrow + claimed + proceeds, paid_in);
}

#[test]
fn full_fee_rate_routes_everything_to_protocol() {
    // at the maximal rate the whole sale and the whole deposit are skimmed
    let (mut s, badge) = Solarix::instantiate(10000, 10000);
    let id = s.create_fractionalized_asset(badge, 77, 5, 1).unwrap();
    let (shares, change) = s.buy_nft(id, 1, 5).unwrap();
    assert_eq!(shares.len(), 1);
    assert_eq!(shares[0].local_id, 0);
    assert_eq!(change, 0);
    assert_eq!(payout_of(&s, 77), Some(0));
    assert_eq!(s.protocol_collected_fees, 5);
    s.deposit_earnings(badge, id, 10).unwrap();
    assert_eq!(s.protocol_collected_fees, 15);
    assert_eq!(s.earnings_vaults_maps[0], vec![0]);
    let p = OwnershipProof { resource_address: s.panels[0].nft_resource_address, local_id: 0 };
    assert_eq!(s.claim_earnings(id, p).unwrap(), 0);
}

#[test]
fn zero_fee_rates_skim_nothing() {
    let (mut s, badge) = Solarix::instantiate(0, 0);
    let id = s.create_fractionalized_asset(badge, 77, 3, 2).unwrap();
    s.buy_nft(id, 2, 6).unwrap();
    s.deposit_earnings(badge, id, 9).unwrap();
    assert_eq!(s.protocol_collected_fees, 1); // only the odd residue of 9 / 2
    assert!(s.earnings_vaults_maps[0].iter().all(|b| *b == 4));
    assert_eq!(payout_of(&s, 77), Some(6));
}
