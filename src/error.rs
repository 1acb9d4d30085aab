use vstd::prelude::*;

verus! {

/// Why an operation was refused. A refused operation leaves the state as it was.
#[derive(Debug, Clone, Copy, PartialEq, Eq, Structural)]
pub enum ContractError {
    /// The caller lacks the role that the operation needs.
    Unauthorized,
    /// The named collection does not exist.
    CollectionNotFound,
    /// The named token does not exist.
    TokenNotFound,
    /// A mint into a collection asked for a number of copies other than one.
    MultipleCopiesInCollection,
    /// A royalty record names more accounts than allowed.
    RoyaltyTooLong,
    /// The shares of a royalty record add up to the whole or more.
    RoyaltyTooLarge,
    /// A royalty record names an account whose identifier is not valid.
    InvalidRoyaltyAccount,
    /// A royalty record names one account twice.
    DuplicateRoyaltyAccount,
    /// A payout would have more royalty entries than the caller accepts.
    PayoutTooLong,
    /// The token metadata of a mint has no title.
    MissingTitle,
    /// The call does not carry the one unit of deposit it needs.
    MissingDeposit,
    /// There is no earlier state to migrate.
    NoPriorState,
}

} // verus!
