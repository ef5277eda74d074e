use vstd::prelude::*;

verus! {

/// Why a broker or handler operation was refused. Every refusal leaves all
/// state as it was.
#[derive(Clone, Copy, Debug, PartialEq, Eq, Structural)]
pub enum BrokerError {
    /// No handler is registered under the given identity.
    NotRegistered,
    /// The identity offered as a handler holds no program code.
    NotExecutable,
    /// A supplied address is not the derivation of its seeds.
    DerivationMismatch,
    /// A region is not owned by whom the operation expects.
    OwnershipMismatch,
    /// The payer cannot fund the region.
    InsufficientFunds,
    /// The authorizing identity is not the one recorded in storage.
    CredentialMismatch,
    /// The sending account holds less than the amount.
    InsufficientBalance,
    /// Two token accounts belong to different mints.
    MintMismatch,
    /// A region of zero bytes was asked for.
    InvalidSize,
    /// A region is too short for the layout that handlers agree to.
    LayoutMismatch,
    /// A recorded amount would leave the range of 64 bits.
    Overflow,
    /// A sub-call carries an operation tag that the handler does not know.
    UnknownOperation,
}

} // verus!
