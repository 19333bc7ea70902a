pub mod errors;
pub mod laws;
pub mod panel;
pub mod sums;

use vstd::prelude::*;
use crate::errors::MyError;
use crate::panel::{NFTData, Nft, OwnershipProof, Panel};
use crate::sums::{
    lemma_sum_ledgers_push, lemma_sum_ledgers_update, lemma_sum_payouts_push,
    lemma_sum_payouts_update, lemma_sum_seq_all_inc, lemma_sum_seq_append_zeros,
    lemma_sum_seq_update, sum_ledgers, sum_payouts, sum_seq,
};

verus! {

/// Denominator of the fee rates: a rate is given in parts per ten thousand,
/// so a rate of 200 means two percent.
pub const FEE_SCALE: u64 = 10000;

/// Resource address of the admin badge minted at instantiation. Panel share
/// classes are addressed by their panel id, which stays strictly below this
/// value, so the badge never collides with a share class.
pub const ADMIN_BADGE_ADDRESS: u64 = 0xffff_ffff_ffff_ffff;

/// One proceeds ledger entry: the escrow accumulating net sale income for
/// one payee.
pub struct PayoutVault {
    pub payee: u64,
    pub balance: u128,
}

/// The controller of the fractionalization engine.
///
/// It owns, keyed by panel id in parallel vectors: the asset descriptors,
/// the custody vaults of unsold share tokens, and the per-share earnings
/// ledgers; and, keyed by payee, the proceeds vaults, plus the single
/// protocol fee vault. Fields are public so that the contracts can speak of
/// the full state; every operation requires and preserves [`Solarix::wf`].
pub struct Solarix {
    /// Custody vaults: the unsold share local ids of each panel.
    pub non_fungible_vaults: Vec<Vec<u64>>,
    /// Asset descriptors, indexed by panel id.
    pub panels: Vec<Panel>,
    /// Earnings ledgers: entry `k` of panel `p` holds the unclaimed balance
    /// of share `total_supply - 1 - k`, entries being created in the order
    /// the shares leave custody.
    pub earnings_vaults_maps: Vec<Vec<u128>>,
    /// Proceeds vaults, one per payee.
    pub payout_vaults: Vec<PayoutVault>,
    /// The protocol fee vault.
    pub protocol_collected_fees: u128,
    /// Resource address of the badge gating administrative operations.
    pub admin_badge_address: u64,
    /// The next panel id to assign; ids grow monotonically from zero.
    pub id_counter: u64,
    /// Fee rate applied to each sale, in parts per [`FEE_SCALE`].
    pub buy_nft_fee: u64,
    /// Fee rate applied to each earnings deposit, in parts per [`FEE_SCALE`].
    pub earnings_fee: u64,
}

/// The fee skimmed from `amount` at `rate` parts per [`FEE_SCALE`],
/// rounded down.
pub open spec fn fee_of(amount: int, rate: int) -> int {
    amount * rate / (FEE_SCALE as int)
}

/// The skimmed fee is never negative and never exceeds the amount it is
/// taken from.
pub proof fn lemma_fee_bounds(amount: int, rate: int)
    requires
        0 <= amount,
        0 <= rate,
        rate <= FEE_SCALE as int,
    ensures
        0 <= fee_of(amount, rate),
        fee_of(amount, rate) <= amount,
{
    let s = FEE_SCALE as int;
    assert(0 <= amount * rate) by (nonlinear_arith)
        requires
            0 <= amount,
            0 <= rate,
    ;
    vstd::arithmetic::div_mod::lemma_div_pos_is_pos(amount * rate, s);
    assert(amount * rate <= s * amount) by (nonlinear_arith)
        requires
            0 <= amount,
            rate <= s,
    ;
    vstd::arithmetic::div_mod::lemma_div_is_ordered(amount * rate, s * amount, s);
    vstd::arithmetic::div_mod::lemma_div_multiples_vanish(amount, s);
}

impl Solarix {
    pub open spec fn panel_count(self) -> int {
        self.panels@.len() as int
    }

    pub open spec fn has_panel(self, p: int) -> bool {
        0 <= p < self.panels@.len()
    }

    pub open spec fn panel_at(self, p: int) -> Panel {
        self.panels@[p]
    }

    /// The local ids still held in panel `p`'s custody vault.
    pub open spec fn custody(self, p: int) -> Seq<u64> {
        self.non_fungible_vaults@[p]@
    }

    pub open spec fn custody_count(self, p: int) -> int {
        self.custody(p).len() as int
    }

    /// The earnings ledger of panel `p`, entry `k` belonging to share
    /// `total_supply - 1 - k`.
    pub open spec fn entries(self, p: int) -> Seq<u128> {
        self.earnings_vaults_maps@[p]@
    }

    /// How many shares of panel `p` have been sold: exactly one earnings
    /// ledger entry exists per sold share.
    pub open spec fn sold_count(self, p: int) -> int {
        self.entries(p).len() as int
    }

    /// The ledger entry index of share `nft` of panel `p`.
    pub open spec fn entry_index(self, p: int, nft: int) -> int {
        self.panel_at(p).total_supply - 1 - nft
    }

    /// Whether an earnings ledger entry exists for share `nft` of panel `p`:
    /// entries exist exactly for the sold shares, which are the highest
    /// `sold_count` local ids.
    pub open spec fn has_entry(self, p: int, nft: int) -> bool {
        &&& self.has_panel(p)
        &&& self.panel_at(p).total_supply - self.sold_count(p) <= nft
        &&& nft < self.panel_at(p).total_supply
    }

    /// The unclaimed earnings balance of share `nft` of panel `p`.
    pub open spec fn entry_balance(self, p: int, nft: int) -> u128 {
        self.entries(p)[self.entry_index(p, nft)]
    }

    pub open spec fn has_payout(self, payee: u64) -> bool {
        exists|i: int| 0 <= i < self.payout_vaults@.len() && self.payout_vaults@[i].payee == payee
    }

    /// The index of `payee`'s proceeds vault; meaningful under
    /// [`Solarix::has_payout`], unique under [`Solarix::wf`].
    pub open spec fn payout_index(self, payee: u64) -> int {
        choose|i: int| 0 <= i < self.payout_vaults@.len() && self.payout_vaults@[i].payee == payee
    }

    /// The accumulated net proceeds owed to `payee`.
    pub open spec fn payout_balance(self, payee: u64) -> u128 {
        self.payout_vaults@[self.payout_index(payee)].balance
    }

    /// The custody vaults as a sequence of sequences of local ids.
    pub open spec fn custody_view(self) -> Seq<Seq<u64>> {
        Seq::new(self.non_fungible_vaults@.len(), |p: int| self.non_fungible_vaults@[p]@)
    }

    /// The earnings ledgers as a sequence of sequences of balances.
    pub open spec fn ledgers_view(self) -> Seq<Seq<u128>> {
        Seq::new(self.earnings_vaults_maps@.len(), |p: int| self.earnings_vaults_maps@[p]@)
    }

    /// Every unit of payment currency held in escrow by the engine: the fee
    /// vault, all proceeds vaults and all earnings ledger entries together.
    pub open spec fn total_value(self) -> int {
        self.protocol_collected_fees + sum_payouts(self.payout_vaults@) + sum_ledgers(
            self.ledgers_view(),
        )
    }

    /// Well-formedness of one panel's slice of the state.
    pub open spec fn panel_wf(self, p: int) -> bool {
        let panel = self.panels@[p];
        &&& panel.panel_id == p
        &&& panel.nft_resource_address == p
        &&& panel.total_supply > 0
        &&& panel.price_per_nft > 0
        &&& self.custody(p).len() + self.entries(p).len() == panel.total_supply
        &&& forall|j: int| 0 <= j < self.custody(p).len() ==> self.custody(p)[j] == j
    }

    /// Well-formedness of the whole engine state. Established by
    /// [`Solarix::instantiate`] and preserved by every operation.
    ///
    /// In particular, per panel, the shares in custody and the sold shares
    /// (one ledger entry each) together always count `total_supply`; the
    /// custody vault holds exactly the lowest local ids, so the sold shares
    /// are the highest ones; share classes are distinct across panels; and
    /// every panel's payee owns a proceeds vault, payees being unique.
    pub open spec fn wf(self) -> bool {
        let n = self.panels@.len();
        &&& self.non_fungible_vaults@.len() == n
        &&& self.earnings_vaults_maps@.len() == n
        &&& self.id_counter == n
        &&& forall|p: int| 0 <= p < n ==> self.panel_wf(p)
        &&& forall|i: int, j: int|
            0 <= i < j < self.payout_vaults@.len() ==> self.payout_vaults@[i].payee
                != self.payout_vaults@[j].payee
        &&& forall|p: int|
            0 <= p < n ==> self.has_payout(#[trigger] self.panels@[p].payment_receiver)
        &&& self.buy_nft_fee <= FEE_SCALE
        &&& self.earnings_fee <= FEE_SCALE
    }

    /// Sets up an empty engine and mints the admin badge, whose resource
    /// address gates the administrative operations; the badge is returned to
    /// the caller together with the controller.
    pub fn instantiate(buy_nft_fee: u64, earnings_fee: u64) -> (r: (Solarix, u64))
        requires
            buy_nft_fee <= FEE_SCALE,
            earnings_fee <= FEE_SCALE,
        ensures
            r.0.wf(),
            r.0.panel_count() == 0,
            r.0.payout_vaults@.len() == 0,
            r.0.protocol_collected_fees == 0,
            r.0.total_value() == 0,
            r.0.buy_nft_fee == buy_nft_fee,
            r.0.earnings_fee == earnings_fee,
            r.1 == r.0.admin_badge_address,
    {
        let solarix = Solarix {
            non_fungible_vaults: Vec::new(),
            panels: Vec::new(),
            earnings_vaults_maps: Vec::new(),
            payout_vaults: Vec::new(),
            protocol_collected_fees: 0,
            admin_badge_address: ADMIN_BADGE_ADDRESS,
            id_counter: 0,
            buy_nft_fee,
            earnings_fee,
        };
        proof {
            assert(solarix.ledgers_view() =~= Seq::<Seq<u128>>::empty());
        }
        (solarix, ADMIN_BADGE_ADDRESS)
    }

    /// Linear scan for the proceeds vault of `payee`.
    fn find_payout_vault(&self, payee: u64) -> (r: Option<usize>)
        ensures
            match r {
                Some(i) => i < self.payout_vaults@.len() && self.payout_vaults@[i as int].payee
                    == payee,
                None => !self.has_payout(payee),
            },
    {
        let mut i: usize = 0;
        while i < self.payout_vaults.len()
            invariant
                i <= self.payout_vaults@.len(),
                forall|j: int| 0 <= j < i ==> self.payout_vaults@[j].payee != payee,
            decreases self.payout_vaults@.len() - i,
        {
            if self.payout_vaults[i].payee == payee {
                return Some(i);
            }
            i = i + 1;
        }
        None
    }

    /// Under payee uniqueness, any index whose vault belongs to `payee` is
    /// the one that [`Solarix::payout_index`] denotes.
    proof fn lemma_payout_index_unique(self, i: int, payee: u64)
        requires
            self.wf(),
            0 <= i < self.payout_vaults@.len(),
            self.payout_vaults@[i].payee == payee,
        ensures
            self.has_payout(payee),
            self.payout_index(payee) == i,
    {
        assert(self.has_payout(payee));
        let c = self.payout_index(payee);
        if c < i {
            assert(self.payout_vaults@[c].payee != self.payout_vaults@[i].payee);
        } else if c > i {
            assert(self.payout_vaults@[i].payee != self.payout_vaults@[c].payee);
        }
    }

    /// Hands out the next panel id and advances the monotonic counter.
    fn _get_next_id_and_increment(&mut self) -> (id: u64)
        requires
            old(self).id_counter < u64::MAX,
        ensures
            id == old(self).id_counter,
            final(self).id_counter == old(self).id_counter + 1,
            final(self).non_fungible_vaults == old(self).non_fungible_vaults,
            final(self).panels == old(self).panels,
            final(self).earnings_vaults_maps == old(self).earnings_vaults_maps,
            final(self).payout_vaults == old(self).payout_vaults,
            final(self).protocol_collected_fees == old(self).protocol_collected_fees,
            final(self).admin_badge_address == old(self).admin_badge_address,
            final(self).buy_nft_fee == old(self).buy_nft_fee,
            final(self).earnings_fee == old(self).earnings_fee,
    {
        let id = self.id_counter;
        self.id_counter = self.id_counter + 1;
        id
    }

    /// Creates a fractionalized asset: assigns the next panel id, mints
    /// `total_supply` share tokens into a fresh custody vault, registers the
    /// descriptor, initializes an empty earnings ledger, and makes sure a
    /// proceeds vault exists for `owner_address`, creating one with zero
    /// balance only if absent. Restricted to holders of the admin badge.
    ///
    /// No escrow balance changes, so the engine's total held value is
    /// untouched.
    pub fn create_fractionalized_asset(
        &mut self,
        admin_badge: u64,
        owner_address: u64,
        price_per_nft: u64,
        total_supply: u64,
    ) -> (r: Result<u64, MyError>)
        requires
            old(self).wf(),
            admin_badge == old(self).admin_badge_address,
        ensures
            final(self).wf(),
            r is Ok <==> price_per_nft > 0 && total_supply > 0 && old(self).id_counter < u64::MAX,
            price_per_nft == 0 ==> r == Result::<u64, MyError>::Err(
                MyError::ZeroOrNegativePriceError,
            ),
            price_per_nft > 0 && total_supply == 0 ==> r == Result::<u64, MyError>::Err(
                MyError::ZeroOrNegativeTotalSupplyError,
            ),
            price_per_nft > 0 && total_supply > 0 && old(self).id_counter == u64::MAX ==> (r
                matches Err(e) && (e matches MyError::GeneralError(_))),
            r is Err ==> *final(self) == *old(self),
            r matches Ok(id) ==> {
                &&& id == old(self).id_counter
                &&& final(self).id_counter == old(self).id_counter + 1
                &&& final(self).panels@ == old(self).panels@.push(
                    Panel {
                        total_supply,
                        payment_receiver: owner_address,
                        price_per_nft,
                        panel_id: id,
                        nft_resource_address: id,
                    },
                )
                &&& final(self).custody_view() == old(self).custody_view().push(
                    Seq::new(total_supply as nat, |i: int| i as u64),
                )
                &&& final(self).ledgers_view() == old(self).ledgers_view().push(
                    Seq::<u128>::empty(),
                )
                &&& final(self).panel_count() == old(self).panel_count() + 1
                &&& final(self).panel_at(id as int) == Panel {
                    total_supply,
                    payment_receiver: owner_address,
                    price_per_nft,
                    panel_id: id,
                    nft_resource_address: id,
                }
                &&& final(self).custody(id as int) == Seq::new(total_supply as nat, |i: int| i as u64)
                &&& final(self).custody_count(id as int) == total_supply
                &&& final(self).sold_count(id as int) == 0
                &&& final(self).payout_vaults@ == if old(self).has_payout(owner_address) {
                    old(self).payout_vaults@
                } else {
                    old(self).payout_vaults@.push(PayoutVault { payee: owner_address, balance: 0 })
                }
                &&& final(self).has_payout(owner_address)
                &&& final(self).payout_balance(owner_address) == if old(self).has_payout(
                    owner_address,
                ) {
                    old(self).payout_balance(owner_address)
                } else {
                    0u128
                }
                &&& final(self).protocol_collected_fees == old(self).protocol_collected_fees
                &&& final(self).total_value() == old(self).total_value()
                &&& final(self).admin_badge_address == old(self).admin_badge_address
                &&& final(self).buy_nft_fee == old(self).buy_nft_fee
                &&& final(self).earnings_fee == old(self).earnings_fee
            },
    {
        let (panel, minted) = match Panel::new(
            self.id_counter,
            owner_address,
            price_per_nft,
            total_supply,
        ) {
            Ok(x) => x,
            Err(e) => {
                return Err(e);
            },
        };
        if self.id_counter == u64::MAX {
            return Err(MyError::GeneralError("panel id space exhausted".to_owned()));
        }
        let ghost pre = *self;
        let id = self._get_next_id_and_increment();
        self.panels.push(panel);
        self.non_fungible_vaults.push(minted);
        self.earnings_vaults_maps.push(Vec::new());
        let had_vault = match self.find_payout_vault(owner_address) {
            Some(_) => true,
            None => false,
        };
        if !had_vault {
            self.payout_vaults.push(PayoutVault { payee: owner_address, balance: 0 });
        }
        proof {
            let post = *self;
            let n = pre.panels@.len() as int;
            assert(post.custody_view() =~= pre.custody_view().push(
                Seq::new(total_supply as nat, |i: int| i as u64),
            ));
            assert(post.ledgers_view() =~= pre.ledgers_view().push(Seq::<u128>::empty()));
            // value accounting: the new vaults are empty
            lemma_sum_ledgers_push(pre.ledgers_view(), Seq::<u128>::empty());
            if !pre.has_payout(owner_address) {
                lemma_sum_payouts_push(
                    pre.payout_vaults@,
                    PayoutVault { payee: owner_address, balance: 0 },
                );
            }
            // well-formedness of the extended state
            assert forall|p: int| 0 <= p < post.panels@.len() implies post.panel_wf(p) by {
                if p < n {
                    assert(pre.panel_wf(p));
                    assert(post.custody(p) == pre.custody(p));
                    assert(post.entries(p) == pre.entries(p));
                } else {
                    assert(post.custody(p) == Seq::new(total_supply as nat, |i: int| i as u64));
                }
            }
            assert forall|p: int| 0 <= p < post.panels@.len() implies post.has_payout(
                #[trigger] post.panels@[p].payment_receiver,
            ) by {
                if p < n {
                    let recv = pre.panels@[p].payment_receiver;
                    assert(pre.has_payout(recv));
                    let w = choose|i: int|
                        0 <= i < pre.payout_vaults@.len() && pre.payout_vaults@[i].payee == recv;
                    assert(post.payout_vaults@[w].payee == recv);
                } else {
                    if pre.has_payout(owner_address) {
                        let w = choose|i: int|
                            0 <= i < pre.payout_vaults@.len() && pre.payout_vaults@[i].payee
                                == owner_address;
                        assert(post.payout_vaults@[w].payee == owner_address);
                    } else {
                        let w = post.payout_vaults@.len() - 1;
                        assert(post.payout_vaults@[w].payee == owner_address);
                    }
                }
            }
            // the reported balance of the owner's vault
            if pre.has_payout(owner_address) {
                let w = pre.payout_index(owner_address);
                pre.lemma_payout_index_unique(w, owner_address);
                post.lemma_payout_index_unique(w, owner_address);
            } else {
                let w = post.payout_vaults@.len() - 1;
                post.lemma_payout_index_unique(w, owner_address);
            }
        }
        Ok(id)
    }

    /// The payment a purchase of `quantity` shares of panel `p` requires.
    pub open spec fn required_payment(self, p: int, quantity: u32) -> int {
        self.panel_at(p).price_per_nft * quantity
    }

    /// The protocol fee skimmed from such a sale.
    pub open spec fn buy_fee(self, p: int, quantity: u32) -> int {
        fee_of(self.required_payment(p, quantity), self.buy_nft_fee as int)
    }

    /// Whether crediting the sale would push an escrow balance past the
    /// representable range; such a sale is refused whole.
    pub open spec fn buy_overflows(self, p: int, quantity: u32) -> bool {
        let required = self.required_payment(p, quantity);
        let fee = self.buy_fee(p, quantity);
        ||| self.protocol_collected_fees + fee > u128::MAX
        ||| self.payout_balance(self.panel_at(p).payment_receiver) + (required - fee) > u128::MAX
    }

    /// When a purchase goes through.
    pub open spec fn buy_accepted(self, panel_id: u64, quantity: u32, payment: u128) -> bool {
        let p = panel_id as int;
        &&& self.has_panel(p)
        &&& payment >= self.required_payment(p, quantity)
        &&& quantity <= self.custody_count(p)
        &&& !self.buy_overflows(p, quantity)
    }

    /// Sells `quantity` shares of the given panel against `payment`.
    ///
    /// On success, exactly `quantity` share tokens leave custody, highest
    /// local id first, and are returned together with the change
    /// `payment - unit_price * quantity`; the sale's fee goes to the
    /// protocol fee vault, the net proceeds to the payee's vault, and one
    /// zero-balance earnings ledger entry is created per share just sold.
    /// All of that happens together, or, on any failure, nothing at all.
    pub fn buy_nft(&mut self, panel_id: u64, quantity: u32, payment: u128) -> (r: Result<
        (Vec<Nft>, u128),
        MyError,
    >)
        requires
            old(self).wf(),
            quantity >= 1,
        ensures
            final(self).wf(),
            r is Ok <==> old(self).buy_accepted(panel_id, quantity, payment),
            r is Err ==> *final(self) == *old(self),
            !old(self).has_panel(panel_id as int) ==> r == Result::<(Vec<Nft>, u128), MyError>::Err(
                MyError::AssetNotFound,
            ),
            old(self).has_panel(panel_id as int) && payment < old(self).required_payment(
                panel_id as int,
                quantity,
            ) ==> r == Result::<(Vec<Nft>, u128), MyError>::Err(
                MyError::InsufficientTokenAmount {
                    expected: old(self).required_payment(panel_id as int, quantity) as u128,
                    found: payment,
                },
            ),
            old(self).has_panel(panel_id as int) && payment >= old(self).required_payment(
                panel_id as int,
                quantity,
            ) && quantity > old(self).custody_count(panel_id as int) ==> r == Result::<
                (Vec<Nft>, u128),
                MyError,
            >::Err(
                MyError::InsufficientSupply {
                    requested: quantity,
                    available: old(self).custody_count(panel_id as int) as u32,
                },
            ),
            old(self).has_panel(panel_id as int) && payment >= old(self).required_payment(
                panel_id as int,
                quantity,
            ) && quantity <= old(self).custody_count(panel_id as int) && old(self).buy_overflows(
                panel_id as int,
                quantity,
            ) ==> (r matches Err(e) && (e matches MyError::GeneralError(_))),
            r matches Ok((shares, change)) ==> {
                let p = panel_id as int;
                let required = old(self).required_payment(p, quantity);
                let fee = old(self).buy_fee(p, quantity);
                let receiver = old(self).panel_at(p).payment_receiver;
                let oldc = old(self).custody_count(p);
                &&& change == payment - required
                &&& shares@.len() == quantity
                &&& forall|k: int|
                    0 <= k < quantity ==> (#[trigger] shares@[k]).local_id == oldc - 1 - k
                        && shares@[k].data.asset_id == panel_id
                &&& final(self).custody_view() == old(self).custody_view().update(
                    p,
                    old(self).custody(p).take(oldc - quantity),
                )
                &&& final(self).ledgers_view() == old(self).ledgers_view().update(
                    p,
                    old(self).entries(p) + Seq::new(quantity as nat, |i: int| 0u128),
                )
                &&& final(self).custody(p) == old(self).custody(p).take(oldc - quantity)
                &&& final(self).custody_count(p) == oldc - quantity
                &&& final(self).entries(p) == old(self).entries(p) + Seq::new(
                    quantity as nat,
                    |i: int| 0u128,
                )
                &&& final(self).sold_count(p) == old(self).sold_count(p) + quantity
                &&& forall|nft: int|
                    oldc - quantity <= nft < oldc ==> final(self).has_entry(p, nft)
                        && final(self).entry_balance(p, nft) == 0
                &&& final(self).payout_balance(receiver) == old(self).payout_balance(receiver)
                    + (required - fee)
                &&& final(self).payout_vaults@ == old(self).payout_vaults@.update(
                    old(self).payout_index(receiver),
                    PayoutVault {
                        payee: receiver,
                        balance: (old(self).payout_balance(receiver) + (required - fee)) as u128,
                    },
                )
                &&& final(self).protocol_collected_fees == old(self).protocol_collected_fees + fee
                &&& final(self).panels@ == old(self).panels@
                &&& final(self).id_counter == old(self).id_counter
                &&& final(self).admin_badge_address == old(self).admin_badge_address
                &&& final(self).buy_nft_fee == old(self).buy_nft_fee
                &&& final(self).earnings_fee == old(self).earnings_fee
                &&& final(self).total_value() == old(self).total_value() + required
            },
    {
        if panel_id >= self.panels.len() as u64 {
            return Err(MyError::AssetNotFound);
        }
        let pid: usize = panel_id as usize;
        let ghost p = panel_id as int;
        let price: u64 = self.panels[pid].price_per_nft;
        let receiver: u64 = self.panels[pid].payment_receiver;
        proof {
            assert((price as int) * (quantity as int) <= 79228162514264337593543950336)
                by (nonlinear_arith)
                requires
                    price as int <= 18446744073709551615,
                    quantity as int <= 4294967295,
            ;
        }
        let required: u128 = (price as u128) * (quantity as u128);
        if payment < required {
            return Err(MyError::InsufficientTokenAmount { expected: required, found: payment });
        }
        let available: usize = self.non_fungible_vaults[pid].len();
        if (quantity as usize) > available {
            return Err(
                MyError::InsufficientSupply { requested: quantity, available: available as u32 },
            );
        }
        proof {
            assert((required as int) * (self.buy_nft_fee as int)
                <= 792281625142643375935439503360000) by (nonlinear_arith)
                requires
                    required as int <= 79228162514264337593543950336,
                    0 <= self.buy_nft_fee as int <= 10000,
            ;
            lemma_fee_bounds(required as int, self.buy_nft_fee as int);
        }
        let fee: u128 = required * (self.buy_nft_fee as u128) / (FEE_SCALE as u128);
        let net: u128 = required - fee;
        if self.protocol_collected_fees > u128::MAX - fee {
            return Err(MyError::GeneralError("fee vault balance out of range".to_owned()));
        }
        let pi: usize = match self.find_payout_vault(receiver) {
            Some(i) => i,
            None => {
                proof {
                    assert(old(self).has_payout(old(self).panels@[p].payment_receiver));
                    assert(false);
                }
                return Err(MyError::AssetNotFound);
            },
        };
        proof {
            self.lemma_payout_index_unique(pi as int, receiver);
        }
        if self.payout_vaults[pi].balance > u128::MAX - net {
            return Err(MyError::GeneralError("proceeds vault balance out of range".to_owned()));
        }
        let ghost pre = *self;
        let ghost oldc = pre.custody_count(p);
        // custody debit: pop the sold shares, highest local id first
        let mut shares: Vec<Nft> = Vec::new();
        let cv: &mut Vec<u64> = &mut self.non_fungible_vaults[pid];
        let mut k: u32 = 0;
        while k < quantity
            invariant
                k <= quantity,
                quantity as int <= oldc,
                pre.wf(),
                0 <= p < pre.panels@.len(),
                oldc == pre.custody(p).len(),
                cv@ == pre.custody(p).take(oldc - k),
                shares@.len() == k as nat,
                forall|i: int|
                    0 <= i < k ==> (#[trigger] shares@[i]).local_id == oldc - 1 - i
                        && shares@[i].data.asset_id == panel_id,
            decreases quantity - k,
        {
            let sid: u64 = match cv.pop() {
                Some(x) => x,
                None => {
                    proof {
                        assert(false);
                    }
                    0
                },
            };
            proof {
                assert(pre.panel_wf(p));
                assert(pre.custody(p)[oldc - k - 1] == oldc - k - 1);
                assert(pre.custody(p).take(oldc - k).drop_last() =~= pre.custody(p).take(
                    oldc - (k + 1),
                ));
            }
            shares.push(Nft { local_id: sid, data: NFTData { name: "".to_owned(), asset_id: panel_id } });
            k = k + 1;
        }
        // ledger entries for the newly sold shares, at zero balance
        let ev: &mut Vec<u128> = &mut self.earnings_vaults_maps[pid];
        let mut k2: u32 = 0;
        while k2 < quantity
            invariant
                k2 <= quantity,
                0 <= p < pre.earnings_vaults_maps@.len(),
                ev@ == pre.entries(p) + Seq::new(k2 as nat, |i: int| 0u128),
            decreases quantity - k2,
        {
            ev.push(0);
            proof {
                assert(pre.entries(p) + Seq::new((k2 + 1) as nat, |i: int| 0u128) =~= (pre.entries(
                    p,
                ) + Seq::new(k2 as nat, |i: int| 0u128)).push(0u128));
            }
            k2 = k2 + 1;
        }
        // payment split: fee to the protocol vault, net proceeds to the payee
        let prev_balance: u128 = self.payout_vaults[pi].balance;
        self.payout_vaults[pi] = PayoutVault { payee: receiver, balance: prev_balance + net };
        self.protocol_collected_fees = self.protocol_collected_fees + fee;
        let change: u128 = payment - required;
        proof {
            let post = *self;
            let newcv = pre.custody(p).take(oldc - quantity);
            let newev = pre.entries(p) + Seq::new(quantity as nat, |i: int| 0u128);
            assert(post.custody_view() =~= pre.custody_view().update(p, newcv));
            assert(post.ledgers_view() =~= pre.ledgers_view().update(p, newev));
            assert(post.payout_vaults@ == pre.payout_vaults@.update(
                pi as int,
                PayoutVault { payee: receiver, balance: (prev_balance + net) as u128 },
            ));
            // well-formedness of the new state
            assert forall|q: int| 0 <= q < post.panels@.len() implies post.panel_wf(q) by {
                assert(pre.panel_wf(q));
                if q != p {
                    assert(post.custody(q) == pre.custody(q));
                    assert(post.entries(q) == pre.entries(q));
                }
            }
            assert forall|q: int| 0 <= q < post.panels@.len() implies post.has_payout(
                #[trigger] post.panels@[q].payment_receiver,
            ) by {
                let recv = pre.panels@[q].payment_receiver;
                assert(pre.has_payout(recv));
                let w = choose|i: int|
                    0 <= i < pre.payout_vaults@.len() && pre.payout_vaults@[i].payee == recv;
                assert(post.payout_vaults@[w].payee == recv);
            }
            // the freshly created ledger entries carry zero balance
            assert(pre.panel_wf(p));
            assert forall|nft: int| oldc - quantity <= nft < oldc implies post.has_entry(p, nft)
                && post.entry_balance(p, nft) == 0 by {
                let k = post.entry_index(p, nft);
                assert(post.entries(p) == newev);
                assert(newev[k] == Seq::new(quantity as nat, |i: int| 0u128)[k - pre.entries(
                    p,
                ).len()]);
            }
            // value accounting
            lemma_sum_payouts_update(
                pre.payout_vaults@,
                pi as int,
                PayoutVault { payee: receiver, balance: (prev_balance + net) as u128 },
            );
            lemma_sum_seq_append_zeros(pre.entries(p), quantity as nat);
            lemma_sum_ledgers_update(pre.ledgers_view(), p, newev);
            assert(pre.ledgers_view()[p] == pre.entries(p));
            pre.lemma_payout_index_unique(pi as int, receiver);
            post.lemma_payout_index_unique(pi as int, receiver);
        }
        Ok((shares, change))
    }

    /// The protocol fee skimmed from an earnings deposit of `amount`.
    pub open spec fn deposit_fee(self, amount: u64) -> int {
        fee_of(amount as int, self.earnings_fee as int)
    }

    /// The amount credited to each sold share of panel `p` by a deposit of
    /// `amount`: the remainder after the fee, floor-divided evenly.
    pub open spec fn deposit_share(self, p: int, amount: u64) -> int {
        (amount - self.deposit_fee(amount)) / self.sold_count(p)
    }

    /// What the floor division leaves unallocated. The engine's documented
    /// rounding policy sweeps this residue into the protocol fee vault, so
    /// no value silently vanishes.
    pub open spec fn deposit_residue(self, p: int, amount: u64) -> int {
        (amount - self.deposit_fee(amount)) % self.sold_count(p)
    }

    /// Whether crediting the deposit would push an escrow balance past the
    /// representable range; such a deposit is refused whole.
    pub open spec fn deposit_overflows(self, p: int, amount: u64) -> bool {
        ||| self.protocol_collected_fees + self.deposit_fee(amount) + self.deposit_residue(
            p,
            amount,
        ) > u128::MAX
        ||| exists|k: int|
            0 <= k < self.sold_count(p) && self.entries(p)[k] + self.deposit_share(p, amount)
                > u128::MAX
    }

    /// When an earnings deposit goes through.
    pub open spec fn deposit_accepted(self, panel_id: u64, amount: u64) -> bool {
        let p = panel_id as int;
        &&& self.has_panel(p)
        &&& self.custody_count(p) == 0
        &&& !self.deposit_overflows(p, amount)
    }

    /// Ingests external earnings for a fully sold-out panel and splits them
    /// across all of its shares. Restricted to holders of the admin badge.
    ///
    /// The protocol fee is skimmed first; the remainder is floor-divided
    /// evenly across the `total_supply` ledger entries, every entry growing
    /// by the same amount, and the division residue joins the fee in the
    /// protocol vault, so the whole deposit stays accounted for.
    #[verifier::loop_isolation(false)]
    pub fn deposit_earnings(&mut self, admin_badge: u64, panel_id: u64, earnings: u64) -> (r:
        Result<(), MyError>)
        requires
            old(self).wf(),
            admin_badge == old(self).admin_badge_address,
        ensures
            final(self).wf(),
            r is Ok <==> old(self).deposit_accepted(panel_id, earnings),
            r is Err ==> *final(self) == *old(self),
            !old(self).has_panel(panel_id as int) ==> r == Result::<(), MyError>::Err(
                MyError::AssetNotFound,
            ),
            old(self).has_panel(panel_id as int) && old(self).custody_count(panel_id as int) > 0
                ==> r == Result::<(), MyError>::Err(MyError::NonFungibleVaultNotEmptyError),
            old(self).has_panel(panel_id as int) && old(self).custody_count(panel_id as int) == 0
                && old(self).deposit_overflows(panel_id as int, earnings) ==> (r matches Err(e) && (
            e matches MyError::GeneralError(_))),
            r is Ok ==> {
                let p = panel_id as int;
                let n = old(self).sold_count(p);
                let fee = old(self).deposit_fee(earnings);
                let share = old(self).deposit_share(p, earnings);
                let residue = old(self).deposit_residue(p, earnings);
                &&& final(self).ledgers_view() == old(self).ledgers_view().update(
                    p,
                    Seq::new(n as nat, |k: int| (old(self).entries(p)[k] + share) as u128),
                )
                &&& final(self).sold_count(p) == n
                &&& forall|k: int|
                    0 <= k < n ==> final(self).entries(p)[k] == old(self).entries(p)[k] + share
                &&& final(self).protocol_collected_fees == old(self).protocol_collected_fees + fee
                    + residue
                &&& fee + n * share + residue == earnings
                &&& final(self).custody_view() == old(self).custody_view()
                &&& final(self).payout_vaults@ == old(self).payout_vaults@
                &&& final(self).panels@ == old(self).panels@
                &&& final(self).id_counter == old(self).id_counter
                &&& final(self).admin_badge_address == old(self).admin_badge_address
                &&& final(self).buy_nft_fee == old(self).buy_nft_fee
                &&& final(self).earnings_fee == old(self).earnings_fee
                &&& final(self).total_value() == old(self).total_value() + earnings
            },
    {
        if panel_id >= self.panels.len() as u64 {
            return Err(MyError::AssetNotFound);
        }
        let pid: usize = panel_id as usize;
        let ghost p = panel_id as int;
        if self.non_fungible_vaults[pid].len() > 0 {
            return Err(MyError::NonFungibleVaultNotEmptyError);
        }
        let n: usize = self.earnings_vaults_maps[pid].len();
        proof {
            assert(old(self).panel_wf(p));
            assert(n > 0);
            assert((earnings as int) * (self.earnings_fee as int) <= 184467440737095516150000)
                by (nonlinear_arith)
                requires
                    earnings as int <= 18446744073709551615,
                    0 <= self.earnings_fee as int <= 10000,
            ;
            lemma_fee_bounds(earnings as int, self.earnings_fee as int);
        }
        let fee: u128 = (earnings as u128) * (self.earnings_fee as u128) / (FEE_SCALE as u128);
        let remainder: u128 = (earnings as u128) - fee;
        let share: u128 = remainder / (n as u128);
        let residue: u128 = remainder % (n as u128);
        proof {
            vstd::arithmetic::div_mod::lemma_fundamental_div_mod(remainder as int, n as int);
            vstd::arithmetic::div_mod::lemma_div_pos_is_pos(remainder as int, n as int);
            assert((n as int) * (remainder as int / (n as int)) >= 0) by (nonlinear_arith)
                requires
                    n as int > 0,
                    remainder as int / (n as int) >= 0,
            ;
        }
        if self.protocol_collected_fees > u128::MAX - (fee + residue) {
            return Err(MyError::GeneralError("fee vault balance out of range".to_owned()));
        }
        let mut k: usize = 0;
        while k < n
            invariant
                k <= n,
                n == self.earnings_vaults_maps@[p]@.len(),
                0 <= p < self.earnings_vaults_maps@.len(),
                share <= u128::MAX,
                forall|j: int|
                    0 <= j < k ==> #[trigger] self.earnings_vaults_maps@[p]@[j] + share
                        <= u128::MAX,
            decreases n - k,
        {
            if self.earnings_vaults_maps[pid][k] > u128::MAX - share {
                return Err(
                    MyError::GeneralError("share escrow balance out of range".to_owned()),
                );
            }
            k = k + 1;
        }
        let ghost pre = *self;
        let ev: &mut Vec<u128> = &mut self.earnings_vaults_maps[pid];
        let mut k2: usize = 0;
        while k2 < n
            invariant
                k2 <= n,
                n == pre.entries(p).len(),
                0 <= p < pre.earnings_vaults_maps@.len(),
                ev@.len() == n,
                share <= u128::MAX,
                forall|j: int| 0 <= j < n ==> pre.entries(p)[j] + share <= u128::MAX,
                forall|j: int| 0 <= j < k2 ==> #[trigger] ev@[j] == pre.entries(p)[j] + share,
                forall|j: int| k2 <= j < n ==> #[trigger] ev@[j] == pre.entries(p)[j],
            decreases n - k2,
        {
            let cur: u128 = ev[k2];
            ev[k2] = cur + share;
            k2 = k2 + 1;
        }
        self.protocol_collected_fees = self.protocol_collected_fees + (fee + residue);
        proof {
            let post = *self;
            let newev = Seq::new(n as nat, |k: int| (pre.entries(p)[k] + share as int) as u128);
            assert(post.entries(p) =~= newev);
            assert(post.ledgers_view() =~= pre.ledgers_view().update(p, newev));
            assert(post.custody_view() =~= pre.custody_view());
            assert forall|q: int| 0 <= q < post.panels@.len() implies post.panel_wf(q) by {
                assert(pre.panel_wf(q));
                if q != p {
                    assert(post.custody(q) == pre.custody(q));
                    assert(post.entries(q) == pre.entries(q));
                }
            }
            assert forall|q: int| 0 <= q < post.panels@.len() implies post.has_payout(
                #[trigger] post.panels@[q].payment_receiver,
            ) by {
                let recv = pre.panels@[q].payment_receiver;
                assert(pre.has_payout(recv));
                let w = choose|i: int|
                    0 <= i < pre.payout_vaults@.len() && pre.payout_vaults@[i].payee == recv;
                assert(post.payout_vaults@[w].payee == recv);
            }
            lemma_sum_seq_all_inc(pre.entries(p), newev, share as int);
            lemma_sum_ledgers_update(pre.ledgers_view(), p, newev);
            assert(pre.ledgers_view()[p] == pre.entries(p));
        }
        Ok(())
    }

    /// Whether an ownership proof authorizes an earnings claim against the
    /// given panel: the proof's token class must be the panel's own share
    /// class, and the share must have been sold, so that its ledger entry
    /// exists.
    pub open spec fn claim_earnings_accepted(self, panel_id: u64, nft_proof: OwnershipProof) -> bool {
        let p = panel_id as int;
        &&& self.has_panel(p)
        &&& nft_proof.resource_address == self.panel_at(p).nft_resource_address
        &&& self.has_entry(p, nft_proof.local_id as int)
    }

    /// Withdraws the whole unclaimed earnings balance of the share that the
    /// presented proof attests, resetting that balance to zero.
    ///
    /// Claiming an empty balance is a successful no-op returning zero, so a
    /// repeated claim with no deposit in between is harmless.
    pub fn claim_earnings(&mut self, panel_id: u64, nft_proof: OwnershipProof) -> (r: Result<
        u128,
        MyError,
    >)
        requires
            old(self).wf(),
        ensures
            final(self).wf(),
            r is Ok <==> old(self).claim_earnings_accepted(panel_id, nft_proof),
            r is Err ==> *final(self) == *old(self),
            !old(self).has_panel(panel_id as int) ==> r == Result::<u128, MyError>::Err(
                MyError::AssetNotFound,
            ),
            old(self).has_panel(panel_id as int) && !old(self).claim_earnings_accepted(
                panel_id,
                nft_proof,
            ) ==> r == Result::<u128, MyError>::Err(MyError::NotAuthorizedToClaimEarningsError),
            r matches Ok(amount) ==> {
                let p = panel_id as int;
                let nft = nft_proof.local_id as int;
                &&& amount == old(self).entry_balance(p, nft)
                &&& final(self).ledgers_view() == old(self).ledgers_view().update(
                    p,
                    old(self).entries(p).update(old(self).entry_index(p, nft), 0u128),
                )
                &&& final(self).entries(p) == old(self).entries(p).update(
                    old(self).entry_index(p, nft),
                    0u128,
                )
                &&& final(self).sold_count(p) == old(self).sold_count(p)
                &&& final(self).entry_balance(p, nft) == 0
                &&& final(self).custody_view() == old(self).custody_view()
                &&& final(self).payout_vaults@ == old(self).payout_vaults@
                &&& final(self).panels@ == old(self).panels@
                &&& final(self).protocol_collected_fees == old(self).protocol_collected_fees
                &&& final(self).id_counter == old(self).id_counter
                &&& final(self).admin_badge_address == old(self).admin_badge_address
                &&& final(self).buy_nft_fee == old(self).buy_nft_fee
                &&& final(self).earnings_fee == old(self).earnings_fee
                &&& final(self).total_value() == old(self).total_value() - amount
            },
    {
        if panel_id >= self.panels.len() as u64 {
            return Err(MyError::AssetNotFound);
        }
        let pid: usize = panel_id as usize;
        let ghost p = panel_id as int;
        proof {
            assert(old(self).panel_wf(p));
        }
        let supply: u64 = self.panels[pid].total_supply;
        if nft_proof.resource_address != self.panels[pid].nft_resource_address {
            return Err(MyError::NotAuthorizedToClaimEarningsError);
        }
        let sold: usize = self.earnings_vaults_maps[pid].len();
        if nft_proof.local_id >= supply || nft_proof.local_id < supply - (sold as u64) {
            return Err(MyError::NotAuthorizedToClaimEarningsError);
        }
        let ki: usize = (supply - 1 - nft_proof.local_id) as usize;
        let ghost pre = *self;
        let ev: &mut Vec<u128> = &mut self.earnings_vaults_maps[pid];
        let amount: u128 = ev[ki];
        ev[ki] = 0;
        proof {
            let post = *self;
            let newev = pre.entries(p).update(pre.entry_index(p, nft_proof.local_id as int), 0u128);
            assert(post.entries(p) =~= newev);
            assert(post.ledgers_view() =~= pre.ledgers_view().update(p, newev));
            assert(post.custody_view() =~= pre.custody_view());
            assert forall|q: int| 0 <= q < post.panels@.len() implies post.panel_wf(q) by {
                assert(pre.panel_wf(q));
                if q != p {
                    assert(post.custody(q) == pre.custody(q));
                    assert(post.entries(q) == pre.entries(q));
                }
            }
            assert forall|q: int| 0 <= q < post.panels@.len() implies post.has_payout(
                #[trigger] post.panels@[q].payment_receiver,
            ) by {
                let recv = pre.panels@[q].payment_receiver;
                assert(pre.has_payout(recv));
                let w = choose|i: int|
                    0 <= i < pre.payout_vaults@.len() && pre.payout_vaults@[i].payee == recv;
                assert(post.payout_vaults@[w].payee == recv);
            }
            lemma_sum_seq_update(pre.entries(p), pre.entry_index(p, nft_proof.local_id as int), 0u128);
            lemma_sum_ledgers_update(pre.ledgers_view(), p, newev);
            assert(pre.ledgers_view()[p] == pre.entries(p));
        }
        Ok(amount)
    }

    /// Withdraws and zeroes the whole accumulated sale proceeds owed to the
    /// given payee identity, which the surrounding runtime has already
    /// verified the caller to control. A caller matching no proceeds ledger
    /// entry is turned away.
    pub fn claim_sales_proceeds(&mut self, account: u64) -> (r: Result<u128, MyError>)
        requires
            old(self).wf(),
        ensures
            final(self).wf(),
            r is Ok <==> old(self).has_payout(account),
            r is Err ==> *final(self) == *old(self),
            !old(self).has_payout(account) ==> r == Result::<u128, MyError>::Err(
                MyError::NotAuthorizedToClaimPayoutError,
            ),
            r matches Ok(amount) ==> {
                &&& amount == old(self).payout_balance(account)
                &&& final(self).payout_vaults@ == old(self).payout_vaults@.update(
                    old(self).payout_index(account),
                    PayoutVault { payee: account, balance: 0 },
                )
                &&& final(self).payout_balance(account) == 0
                &&& final(self).custody_view() == old(self).custody_view()
                &&& final(self).ledgers_view() == old(self).ledgers_view()
                &&& final(self).panels@ == old(self).panels@
                &&& final(self).protocol_collected_fees == old(self).protocol_collected_fees
                &&& final(self).id_counter == old(self).id_counter
                &&& final(self).admin_badge_address == old(self).admin_badge_address
                &&& final(self).buy_nft_fee == old(self).buy_nft_fee
                &&& final(self).earnings_fee == old(self).earnings_fee
                &&& final(self).total_value() == old(self).total_value() - amount
            },
    {
        let pi: usize = match self.find_payout_vault(account) {
            Some(i) => i,
            None => {
                return Err(MyError::NotAuthorizedToClaimPayoutError);
            },
        };
        proof {
            self.lemma_payout_index_unique(pi as int, account);
        }
        let ghost pre = *self;
        let amount: u128 = self.payout_vaults[pi].balance;
        self.payout_vaults[pi] = PayoutVault { payee: account, balance: 0 };
        proof {
            let post = *self;
            assert(post.payout_vaults@ == pre.payout_vaults@.update(
                pi as int,
                PayoutVault { payee: account, balance: 0 },
            ));
            assert(post.custody_view() =~= pre.custody_view());
            assert(post.ledgers_view() =~= pre.ledgers_view());
            assert forall|q: int| 0 <= q < post.panels@.len() implies post.panel_wf(q) by {
                assert(pre.panel_wf(q));
                assert(post.custody(q) == pre.custody(q));
                assert(post.entries(q) == pre.entries(q));
            }
            assert forall|q: int| 0 <= q < post.panels@.len() implies post.has_payout(
                #[trigger] post.panels@[q].payment_receiver,
            ) by {
                let recv = pre.panels@[q].payment_receiver;
                assert(pre.has_payout(recv));
                let w = choose|i: int|
                    0 <= i < pre.payout_vaults@.len() && pre.payout_vaults@[i].payee == recv;
                assert(post.payout_vaults@[w].payee == recv);
            }
            lemma_sum_payouts_update(
                pre.payout_vaults@,
                pi as int,
                PayoutVault { payee: account, balance: 0 },
            );
            pre.lemma_payout_index_unique(pi as int, account);
            post.lemma_payout_index_unique(pi as int, account);
        }
        Ok(amount)
    }
}

} // verus!
