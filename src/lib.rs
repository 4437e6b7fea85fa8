//! A proportional fund-splitting ledger with delegated withdrawal rights.
//!
//! The host that runs the ledger supplies the caller's identity, the time and
//! the value attached to a payment, and makes the payouts that operations
//! return.
use vstd::prelude::*;

pub mod account;
pub mod types;
pub mod ledger;
pub mod approvals;
pub mod contract;
pub mod laws;

pub use account::{AccountId, Balance, Timestamp};
pub use contract::SplitPayment;
pub use types::{
    Approval, ApprovalGranted, ApprovalRevoked, Beneficiary, BeneficiaryAdded, BeneficiaryRemoved,
    ContractPaused, ContractUnpaused, Error, FundsDistributed, FundsReceived, ManagerAdded,
    ManagerRemoved, Payout, WithdrawalByApproval,
};

verus! {

} // verus!
