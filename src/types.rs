use vstd::prelude::*;

use crate::account::{AccountId, Balance, Timestamp};

verus! {

/// Why an operation was refused.
#[derive(Debug, Clone, Copy, PartialEq, Eq, Structural)]
pub enum Error {
    /// The caller lacks the role or membership that the operation needs.
    Unauthorized,
    /// A pending balance is below the requested amount.
    InsufficientBalance,
    /// An approval is missing, expired, or too small.
    InsufficientAllowance,
    /// The account is the zero identity or is already registered.
    InvalidBeneficiary,
    /// The share is zero or would take the total above one hundred.
    InvalidShare,
    /// Nothing is available to withdraw.
    NoFundsAvailable,
    /// The host could not move the value.
    TransferFailed,
    /// No beneficiary holds the account.
    BeneficiaryNotFound,
    /// The pause gate is engaged.
    ContractPaused,
}

/// A registered recipient and its accounting.
#[derive(Debug, Clone, Copy, PartialEq, Eq)]
pub struct Beneficiary {
    pub account: AccountId,
    pub share_percentage: u8,
    pub pending_balance: Balance,
    pub total_withdrawn: Balance,
}

/// The allowance that a beneficiary granted to a spender.
#[derive(Debug, Clone, Copy, PartialEq, Eq)]
pub struct Approval {
    pub spender: AccountId,
    pub amount: Balance,
    pub expires_at: Option<Timestamp>,
}

/// A request to the host to move value out of the pooled balance.
#[derive(Debug, Clone, Copy, PartialEq, Eq)]
pub struct Payout {
    pub to: AccountId,
    pub amount: Balance,
}

/// Notification: a payment came in.
#[derive(Debug, Clone, Copy, PartialEq, Eq)]
pub struct FundsReceived {
    pub from: AccountId,
    pub amount: Balance,
}

/// Notification: a payment was split among the beneficiaries.
#[derive(Debug, Clone, Copy, PartialEq, Eq)]
pub struct FundsDistributed {
    pub total_amount: Balance,
    pub beneficiary_count: u32,
}

/// Notification: a beneficiary was registered.
#[derive(Debug, Clone, Copy, PartialEq, Eq)]
pub struct BeneficiaryAdded {
    pub beneficiary: AccountId,
    pub share_percentage: u8,
    pub added_by: AccountId,
}

/// Notification: a beneficiary was removed.
#[derive(Debug, Clone, Copy, PartialEq, Eq)]
pub struct BeneficiaryRemoved {
    pub beneficiary: AccountId,
    pub removed_by: AccountId,
}

/// Notification: an approval was granted or overwritten.
#[derive(Debug, Clone, Copy, PartialEq, Eq)]
pub struct ApprovalGranted {
    pub owner: AccountId,
    pub spender: AccountId,
    pub amount: Balance,
    pub expires_at: Option<Timestamp>,
}

/// Notification: an approval was revoked.
#[derive(Debug, Clone, Copy, PartialEq, Eq)]
pub struct ApprovalRevoked {
    pub owner: AccountId,
    pub spender: AccountId,
}

/// Notification: a spender withdrew from a beneficiary's balance.
#[derive(Debug, Clone, Copy, PartialEq, Eq)]
pub struct WithdrawalByApproval {
    pub beneficiary: AccountId,
    pub spender: AccountId,
    pub amount: Balance,
}

/// Notification: a manager was added.
#[derive(Debug, Clone, Copy, PartialEq, Eq)]
pub struct ManagerAdded {
    pub manager: AccountId,
    pub added_by: AccountId,
}

/// Notification: a manager was removed.
#[derive(Debug, Clone, Copy, PartialEq, Eq)]
pub struct ManagerRemoved {
    pub manager: AccountId,
    pub removed_by: AccountId,
}

/// Notification: the pause gate was engaged.
#[derive(Debug, Clone, Copy, PartialEq, Eq)]
pub struct ContractPaused {
    pub by: AccountId,
}

/// Notification: the pause gate was released.
#[derive(Debug, Clone, Copy, PartialEq, Eq)]
pub struct ContractUnpaused {
    pub by: AccountId,
}

} // verus!
