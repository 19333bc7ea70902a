use vstd::prelude::*;

verus! {

/// Errors reported by the fractionalization engine.
///
/// Every operation returns failures through these variants as recoverable
/// results; no verified function of this crate panics. A failed operation
/// leaves every vault exactly as it was before the call.
#[derive(Debug)]
pub enum MyError {
    /// Unexpected internal inconsistency, such as an escrow balance that
    /// would exceed the representable range, or an exhausted id space.
    GeneralError(String),
    /// Asset creation was asked for with a unit price of zero.
    ZeroOrNegativePriceError,
    /// Asset creation was asked for with a total supply of zero.
    ZeroOrNegativeTotalSupplyError,
    /// The payment handed to a purchase is below the required total.
    InsufficientTokenAmount { expected: u128, found: u128 },
    /// Fewer shares remain in custody than the purchase requested.
    InsufficientSupply { requested: u32, available: u32 },
    /// Earnings were deposited before every share of the asset was sold.
    NonFungibleVaultNotEmptyError,
    /// The custody vault holds no shares at all.
    NonFungibleVaultEmptyError,
    /// The presented ownership proof does not match the asset's share class,
    /// or names a share that was never sold.
    NotAuthorizedToClaimEarningsError,
    /// The caller's identity matches no proceeds ledger entry.
    NotAuthorizedToClaimPayoutError,
    /// The caller is not allowed to deposit earnings.
    NotAuthorizedToDepositEarningsError,
    /// The given asset id names no registered asset.
    AssetNotFound,
}

} // verus!
