use vstd::prelude::*;
use crate::errors::MyError;

verus! {

/// Data carried by each minted share token.
///
/// Display-name assignment is outside the engine's scope, so `name` is left
/// empty at minting time; `asset_id` ties the token to its panel.
pub struct NFTData {
    pub name: String,
    pub asset_id: u64,
}

/// One share token: a uniquely indexed, indivisible unit of ownership of a
/// panel, handed to the buyer when the share is sold.
pub struct Nft {
    pub local_id: u64,
    pub data: NFTData,
}

/// A verified assertion that the caller holds the share `local_id` of the
/// token class `resource_address`.
///
/// The ledger runtime converts a presented credential into this pair before
/// it reaches the engine; the engine never parses raw credentials itself.
pub struct OwnershipProof {
    pub resource_address: u64,
    pub local_id: u64,
}

/// Immutable descriptor of one fractionalized asset, fixed at creation.
pub struct Panel {
    pub total_supply: u64,
    pub payment_receiver: u64,
    pub price_per_nft: u64,
    pub panel_id: u64,
    pub nft_resource_address: u64,
}

impl Panel {
    /// Registers a new panel descriptor and mints its full supply of share
    /// tokens, returned as the ascending sequence of local ids
    /// `0, 1, ..., supply - 1`, destined for the asset's custody vault.
    ///
    /// The ledger runtime's freshly allocated token-class address is modeled
    /// by the panel id itself, which the controller assigns uniquely, so
    /// distinct panels always carry distinct share classes.
    pub fn new(id: u64, payment_receiver: u64, price_per_nft: u64, supply: u64) -> (r: Result<
        (Panel, Vec<u64>),
        MyError,
    >)
        ensures
            r is Ok <==> price_per_nft > 0 && supply > 0,
            price_per_nft == 0 ==> r == Result::<(Panel, Vec<u64>), MyError>::Err(
                MyError::ZeroOrNegativePriceError,
            ),
            price_per_nft > 0 && supply == 0 ==> r == Result::<(Panel, Vec<u64>), MyError>::Err(
                MyError::ZeroOrNegativeTotalSupplyError,
            ),
            r matches Ok((panel, minted)) ==> {
                &&& panel.total_supply == supply
                &&& panel.payment_receiver == payment_receiver
                &&& panel.price_per_nft == price_per_nft
                &&& panel.panel_id == id
                &&& panel.nft_resource_address == id
                &&& minted@ == Seq::new(supply as nat, |i: int| i as u64)
            },
    {
        if price_per_nft == 0 {
            return Err(MyError::ZeroOrNegativePriceError);
        }
        if supply == 0 {
            return Err(MyError::ZeroOrNegativeTotalSupplyError);
        }
        let mut minted: Vec<u64> = Vec::new();
        let mut i: u64 = 0;
        while i < supply
            invariant
                i <= supply,
                minted@ == Seq::new(i as nat, |j: int| j as u64),
            decreases supply - i,
        {
            minted.push(i);
            proof {
                assert(Seq::new((i + 1) as nat, |j: int| j as u64) =~= Seq::new(
                    i as nat,
                    |j: int| j as u64,
                ).push(i));
            }
            i = i + 1;
        }
        let panel = Panel {
            total_supply: supply,
            payment_receiver,
            price_per_nft,
            panel_id: id,
            nft_resource_address: id,
        };
        Ok((panel, minted))
    }
}

} // verus!
