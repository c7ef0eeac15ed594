use vstd::prelude::*;

verus! {

/// Every way an operation of this library can be refused.
#[derive(Debug, Clone, Copy, PartialEq, Eq, Structural)]
pub enum PackError {
    /// The weight table is empty, or its total weight is zero.
    ConfigurationError,
    /// An intermediate value does not fit its integer type.
    ArithmeticError,
    /// More draws were asked for than editions remain in the pack.
    NotEnoughCards,
    /// The redemption right has no allowance left for the draws asked for.
    VoucherRedeemLimitReached,
    /// No pending draw of the card is left to claim.
    CardAlreadyRedeemed,
    /// The caller does not own the redemption right.
    WrongVoucherOwner,
    /// The weight table already holds as many cards as it can store.
    MaxCardsReached,
    /// The pack already holds as many vouchers as it can store.
    MaxVouchersReached,
    /// The pack is not in the state the operation needs.
    InvalidState,
    /// The random value was published no earlier than the request itself.
    StaleRandomness,
}

} // verus!
