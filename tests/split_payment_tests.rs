use split_payment::{AccountId, Error, Payout, SplitPayment};

fn account(byte: u8) -> AccountId {
    AccountId::from_bytes([byte; 32])
}

fn alice() -> AccountId {
    account(1)
}

fn bob() -> AccountId {
    account(2)
}

fn charlie() -> AccountId {
    account(3)
}

fn eve() -> AccountId {
    account(5)
}

#[test]
fn constructor_works() {
    let contract = SplitPayment::new(eve());
    assert_eq!(contract.is_paused(), false);
    assert_eq!(contract.get_total_shares(), 0);
}

#[test]
fn add_beneficiary_works() {
    let mut contract = SplitPayment::new(eve());
    assert!(contract.add_beneficiary(eve(), alice(), 50).is_ok());
    assert_eq!(contract.get_total_shares(), 50);
    let beneficiary = contract.get_beneficiary(alice()).unwrap();
    assert_eq!(beneficiary.share_percentage, 50);
}

#[test]
fn approval_system_works() {
    let mut contract = SplitPayment::new(eve());
    contract.add_beneficiary(eve(), alice(), 50).unwrap();
    assert!(contract.approve(alice(), bob(), 1000, None).is_ok());
    assert_eq!(contract.get_approval(alice(), bob()), 1000);
    assert!(contract.revoke_approval(alice(), bob()).is_ok());
    assert_eq!(contract.get_approval(alice(), bob()), 0);
}

#[test]
fn access_control_works() {
    let mut contract = SplitPayment::new(eve());
    assert_eq!(contract.add_manager(alice(), bob()), Err(Error::Unauthorized));
    assert!(contract.add_manager(eve(), alice()).is_ok());
    assert!(contract.is_manager(alice()));
}

#[test]
fn share_cap_refuses_excess() {
    let mut contract = SplitPayment::new(eve());
    assert!(contract.add_beneficiary(eve(), alice(), 50).is_ok());
    assert_eq!(contract.get_total_shares(), 50);
    assert_eq!(contract.add_beneficiary(eve(), bob(), 60), Err(Error::InvalidShare));
    assert_eq!(contract.get_total_shares(), 50);
    assert!(contract.get_beneficiary(bob()).is_none());
}

#[test]
fn share_cap_holds_over_adds_and_removes() {
    let mut contract = SplitPayment::new(eve());
    assert!(contract.add_beneficiary(eve(), alice(), 60).is_ok());
    assert!(contract.add_beneficiary(eve(), bob(), 40).is_ok());
    assert_eq!(contract.add_beneficiary(eve(), charlie(), 1), Err(Error::InvalidShare));
    assert!(contract.remove_beneficiary(eve(), alice()).is_ok());
    assert_eq!(contract.get_total_shares(), 40);
    assert!(contract.add_beneficiary(eve(), charlie(), 60).is_ok());
    assert_eq!(contract.get_total_shares(), 100);
    let sum: u32 = contract.get_beneficiaries().iter().map(|b| b.share_percentage as u32).sum();
    assert_eq!(sum, 100);
}

#[test]
fn full_share_receives_whole_payment() {
    let mut contract = SplitPayment::new(eve());
    contract.add_beneficiary(eve(), alice(), 100).unwrap();
    let (received, distributed) = contract.receive_payment(bob(), 100).unwrap();
    assert_eq!(received.amount, 100);
    assert_eq!(received.from, bob());
    assert_eq!(distributed.unwrap().beneficiary_count, 1);
    assert_eq!(contract.get_beneficiary(alice()).unwrap().pending_balance, 100);
}

#[test]
fn conservation_with_exact_shares() {
    let mut contract = SplitPayment::new(eve());
    contract.add_beneficiary(eve(), alice(), 50).unwrap();
    contract.add_beneficiary(eve(), bob(), 30).unwrap();
    contract.add_beneficiary(eve(), charlie(), 20).unwrap();
    contract.receive_payment(eve(), 1000).unwrap();
    let total: u128 = contract.get_beneficiaries().iter().map(|b| b.pending_balance).sum();
    assert_eq!(total, 1000);
    assert_eq!(contract.get_beneficiary(alice()).unwrap().pending_balance, 500);
    assert_eq!(contract.get_beneficiary(bob()).unwrap().pending_balance, 300);
    assert_eq!(contract.get_beneficiary(charlie()).unwrap().pending_balance, 200);
    assert_eq!(contract.get_stats(7), (1000, 1000, 7));
}

#[test]
fn rounding_loss_is_below_one_unit_each() {
    let mut contract = SplitPayment::new(eve());
    contract.add_beneficiary(eve(), alice(), 33).unwrap();
    contract.add_beneficiary(eve(), bob(), 33).unwrap();
    contract.add_beneficiary(eve(), charlie(), 34).unwrap();
    contract.receive_payment(eve(), 10).unwrap();
    let credited: u128 = contract.get_beneficiaries().iter().map(|b| b.pending_balance).sum();
    assert_eq!(credited, 3 + 3 + 3);
    assert!(10 - credited < 3);
}

#[test]
fn empty_ledger_absorbs_payment() {
    let mut contract = SplitPayment::new(eve());
    let (_, distributed) = contract.receive_payment(alice(), 500).unwrap();
    assert!(distributed.is_none());
    assert_eq!(contract.get_stats(500), (500, 0, 500));
}

#[test]
fn partial_shares_leave_remainder_pooled() {
    let mut contract = SplitPayment::new(eve());
    contract.add_beneficiary(eve(), alice(), 50).unwrap();
    contract.receive_payment(bob(), 101).unwrap();
    assert_eq!(contract.get_beneficiary(alice()).unwrap().pending_balance, 50);
    assert_eq!(contract.get_stats(101), (101, 101, 101));
}

#[test]
fn large_payment_saturates() {
    let mut contract = SplitPayment::new(eve());
    contract.add_beneficiary(eve(), alice(), 100).unwrap();
    contract.receive_payment(bob(), u128::MAX).unwrap();
    assert_eq!(contract.get_beneficiary(alice()).unwrap().pending_balance, u128::MAX / 100);
    contract.receive_payment(bob(), u128::MAX).unwrap();
    assert_eq!(contract.get_stats(0), (u128::MAX, u128::MAX, 0));
}

#[test]
fn delegated_withdrawal_consumes_allowance() {
    let mut contract = SplitPayment::new(eve());
    contract.add_beneficiary(eve(), alice(), 100).unwrap();
    contract.receive_payment(bob(), 100).unwrap();
    contract.approve(alice(), charlie(), 40, None).unwrap();
    let ev = contract.withdraw_from(charlie(), alice(), 25, 0).unwrap();
    assert_eq!(ev.spender, charlie());
    assert_eq!(ev.beneficiary, alice());
    assert_eq!(ev.amount, 25);
    assert_eq!(contract.get_approval(alice(), charlie()), 15);
    assert_eq!(contract.withdraw_from(charlie(), alice(), 20, 0), Err(Error::InsufficientAllowance));
    let b = contract.get_beneficiary(alice()).unwrap();
    assert_eq!(b.pending_balance, 75);
    assert_eq!(b.total_withdrawn, 25);
}

#[test]
fn allowance_record_gone_at_zero() {
    let mut contract = SplitPayment::new(eve());
    contract.add_beneficiary(eve(), alice(), 100).unwrap();
    contract.receive_payment(bob(), 100).unwrap();
    contract.approve(alice(), charlie(), 30, None).unwrap();
    assert!(contract.withdraw_from(charlie(), alice(), 10, 0).is_ok());
    assert!(contract.withdraw_from(charlie(), alice(), 20, 0).is_ok());
    assert_eq!(contract.get_approval(alice(), charlie()), 0);
    assert_eq!(contract.withdraw_from(charlie(), alice(), 1, 0), Err(Error::InsufficientAllowance));
}

#[test]
fn expired_approval_is_refused() {
    let mut contract = SplitPayment::new(eve());
    contract.add_beneficiary(eve(), alice(), 100).unwrap();
    contract.receive_payment(bob(), 100).unwrap();
    contract.approve(alice(), charlie(), 30, Some(1000)).unwrap();
    assert_eq!(contract.withdraw_from(charlie(), alice(), 5, 1001), Err(Error::InsufficientAllowance));
    assert_eq!(contract.get_approval(alice(), charlie()), 30);
    assert!(contract.withdraw_from(charlie(), alice(), 5, 1000).is_ok());
}

#[test]
fn delegated_withdrawal_needs_balance() {
    let mut contract = SplitPayment::new(eve());
    contract.add_beneficiary(eve(), alice(), 100).unwrap();
    contract.receive_payment(bob(), 10).unwrap();
    contract.approve(alice(), charlie(), 30, None).unwrap();
    assert_eq!(contract.withdraw_from(charlie(), alice(), 20, 0), Err(Error::InsufficientBalance));
    assert_eq!(contract.get_approval(alice(), charlie()), 30);
}

#[test]
fn delegated_withdrawal_after_removal_not_found() {
    let mut contract = SplitPayment::new(eve());
    contract.add_beneficiary(eve(), alice(), 100).unwrap();
    contract.approve(alice(), charlie(), 30, None).unwrap();
    contract.remove_beneficiary(eve(), alice()).unwrap();
    assert_eq!(contract.withdraw_from(charlie(), alice(), 0, 0), Err(Error::BeneficiaryNotFound));
}

#[test]
fn approve_overwrites_and_zero_clears() {
    let mut contract = SplitPayment::new(eve());
    contract.add_beneficiary(eve(), alice(), 10).unwrap();
    contract.approve(alice(), bob(), 100, None).unwrap();
    contract.approve(alice(), bob(), 7, Some(5)).unwrap();
    assert_eq!(contract.get_approval(alice(), bob()), 7);
    contract.approve(alice(), bob(), 0, None).unwrap();
    assert_eq!(contract.get_approval(alice(), bob()), 0);
    assert_eq!(contract.approve(bob(), alice(), 5, None), Err(Error::Unauthorized));
}

#[test]
fn revoking_missing_approval_succeeds() {
    let mut contract = SplitPayment::new(eve());
    assert!(contract.revoke_approval(alice(), bob()).is_ok());
}

#[test]
fn self_withdrawal() {
    let mut contract = SplitPayment::new(eve());
    contract.add_beneficiary(eve(), alice(), 100).unwrap();
    contract.receive_payment(bob(), 100).unwrap();
    assert_eq!(contract.withdraw(alice(), 101), Err(Error::InsufficientBalance));
    assert_eq!(contract.withdraw(alice(), 60), Ok(Payout { to: alice(), amount: 60 }));
    let b = contract.get_beneficiary(alice()).unwrap();
    assert_eq!(b.pending_balance, 40);
    assert_eq!(b.total_withdrawn, 60);
    assert_eq!(contract.withdraw(bob(), 1), Err(Error::Unauthorized));
}

#[test]
fn removal_pays_out_pending_balance() {
    let mut contract = SplitPayment::new(eve());
    contract.add_beneficiary(eve(), alice(), 50).unwrap();
    contract.add_beneficiary(eve(), bob(), 50).unwrap();
    contract.receive_payment(charlie(), 100).unwrap();
    let (ev, payout) = contract.remove_beneficiary(eve(), alice()).unwrap();
    assert_eq!(ev.beneficiary, alice());
    assert_eq!(ev.removed_by, eve());
    assert_eq!(payout, Some(Payout { to: alice(), amount: 50 }));
    assert_eq!(contract.get_total_shares(), 50);
    assert_eq!(contract.remove_beneficiary(eve(), alice()), Err(Error::BeneficiaryNotFound));
    contract.withdraw(bob(), 50).unwrap();
    let (_, payout) = contract.remove_beneficiary(eve(), bob()).unwrap();
    assert_eq!(payout, None);
}

#[test]
fn invalid_beneficiaries_refused() {
    let mut contract = SplitPayment::new(eve());
    assert_eq!(contract.add_beneficiary(eve(), account(0), 10), Err(Error::InvalidBeneficiary));
    assert_eq!(contract.add_beneficiary(eve(), alice(), 0), Err(Error::InvalidShare));
    assert_eq!(contract.add_beneficiary(eve(), alice(), 101), Err(Error::InvalidShare));
    contract.add_beneficiary(eve(), alice(), 10).unwrap();
    assert_eq!(contract.add_beneficiary(eve(), alice(), 10), Err(Error::InvalidBeneficiary));
    assert_eq!(contract.add_beneficiary(bob(), charlie(), 10), Err(Error::Unauthorized));
    assert_eq!(contract.remove_beneficiary(bob(), alice()), Err(Error::Unauthorized));
    assert_eq!(contract.get_total_shares(), 10);
}

#[test]
fn managers_can_manage_beneficiaries() {
    let mut contract = SplitPayment::new(eve());
    assert_eq!(contract.add_manager(alice(), bob()), Err(Error::Unauthorized));
    assert!(contract.add_manager(eve(), alice()).is_ok());
    assert!(contract.is_manager(alice()));
    assert!(contract.add_beneficiary(alice(), bob(), 20).is_ok());
    assert_eq!(contract.add_manager(alice(), charlie()), Err(Error::Unauthorized));
    assert!(contract.remove_manager(eve(), alice()).is_ok());
    assert!(!contract.is_manager(alice()));
    assert_eq!(contract.add_beneficiary(alice(), charlie(), 20), Err(Error::Unauthorized));
}

#[test]
fn pause_blocks_mutations_until_unpaused() {
    let mut contract = SplitPayment::new(eve());
    contract.add_beneficiary(eve(), alice(), 50).unwrap();
    assert!(contract.pause(eve()).is_ok());
    assert!(contract.pause(eve()).is_ok());
    assert!(contract.is_paused());
    assert_eq!(contract.add_beneficiary(eve(), bob(), 10), Err(Error::ContractPaused));
    assert_eq!(contract.remove_beneficiary(eve(), alice()), Err(Error::ContractPaused));
    assert_eq!(contract.receive_payment(bob(), 10), Err(Error::ContractPaused));
    assert_eq!(contract.approve(alice(), bob(), 10, None), Err(Error::ContractPaused));
    assert_eq!(contract.revoke_approval(alice(), bob()), Err(Error::ContractPaused));
    assert_eq!(contract.withdraw(alice(), 0), Err(Error::ContractPaused));
    assert_eq!(contract.withdraw_from(bob(), alice(), 0, 0), Err(Error::ContractPaused));
    assert_eq!(contract.get_total_shares(), 50);
    assert!(contract.add_manager(eve(), charlie()).is_ok());
    assert_eq!(contract.unpause(alice()), Err(Error::Unauthorized));
    assert!(contract.unpause(eve()).is_ok());
    assert!(contract.add_beneficiary(eve(), bob(), 10).is_ok());
}

#[test]
fn ownership_transfer() {
    let mut contract = SplitPayment::new(eve());
    assert_eq!(contract.transfer_ownership(alice(), bob()), Err(Error::Unauthorized));
    assert!(contract.transfer_ownership(eve(), alice()).is_ok());
    assert_eq!(contract.get_owner(), alice());
    assert_eq!(contract.pause(eve()), Err(Error::Unauthorized));
    assert!(contract.pause(alice()).is_ok());
}

#[test]
fn failed_transfer_rolls_back() {
    let mut contract = SplitPayment::new(eve());
    contract.add_beneficiary(eve(), alice(), 100).unwrap();
    contract.receive_payment(bob(), 100).unwrap();
    let before = contract.clone();
    contract.withdraw(alice(), 40).unwrap();
    assert_eq!(contract.settle_transfer(before, false), Err(Error::TransferFailed));
    assert_eq!(contract.get_beneficiary(alice()).unwrap().pending_balance, 100);
    let before = contract.clone();
    contract.withdraw(alice(), 40).unwrap();
    assert_eq!(contract.settle_transfer(before, true), Ok(()));
    assert_eq!(contract.get_beneficiary(alice()).unwrap().pending_balance, 60);
}
