use vstd::prelude::*;

use crate::account::{is_zero_account, AccountId, Balance, Timestamp};
use crate::approvals::{
    approval_map, approval_position, entry_key, keys_unique, lemma_approval_map_dom,
    lemma_approval_map_remove, lemma_approval_map_value, ApprovalEntry,
};
use crate::ledger::{
    account_index, clamp_balance, compute_share, credit, debit, has_account, ledger_wf,
    lemma_shares_sum_bounds_len, lemma_shares_sum_nonneg, lemma_shares_sum_push,
    lemma_shares_sum_remove, lemma_shares_sum_same_shares, position_of, shares_sum,
};
use crate::types::{
    Approval, ApprovalGranted, ApprovalRevoked, Beneficiary, BeneficiaryAdded, BeneficiaryRemoved,
    ContractPaused, ContractUnpaused, Error, FundsDistributed, FundsReceived, ManagerAdded,
    ManagerRemoved, Payout, WithdrawalByApproval,
};

verus! {

/// The abstract state of a split-payment ledger.
pub struct Model {
    pub owner: Seq<u8>,
    pub managers: Set<Seq<u8>>,
    pub beneficiaries: Seq<Beneficiary>,
    pub total_shares: u8,
    pub approvals: Map<(Seq<u8>, Seq<u8>), Approval>,
    pub paused: bool,
    pub total_received: Balance,
    pub total_distributed: Balance,
}

/// The invariant of the abstract state: a well-formed ledger whose recorded
/// total is the sum of its shares, and live approvals that are keyed by their
/// own spender and hold a positive amount.
pub open spec fn model_wf(m: Model) -> bool {
    &&& ledger_wf(m.beneficiaries)
    &&& m.total_shares as int == shares_sum(m.beneficiaries)
    &&& forall|k: (Seq<u8>, Seq<u8>)| #[trigger]
        m.approvals.dom().contains(k) ==> m.approvals[k].amount > 0 && m.approvals[k].spender@
            == k.1
}

/// Whether `caller` may perform manager-tier actions.
pub open spec fn is_admin(m: Model, caller: Seq<u8>) -> bool {
    caller == m.owner || m.managers.contains(caller)
}

/// The first check that refuses `add_beneficiary`, if any.
pub open spec fn add_beneficiary_error(m: Model, caller: Seq<u8>, account: Seq<u8>, share: u8) -> Option<
    Error,
> {
    if m.paused {
        Some(Error::ContractPaused)
    } else if !is_admin(m, caller) {
        Some(Error::Unauthorized)
    } else if is_zero_account(account) {
        Some(Error::InvalidBeneficiary)
    } else if share == 0 || m.total_shares + share > 100 {
        Some(Error::InvalidShare)
    } else if has_account(m.beneficiaries, account) {
        Some(Error::InvalidBeneficiary)
    } else {
        None
    }
}

/// The first check that refuses `withdraw_from`, if any.
pub open spec fn withdraw_from_error(
    m: Model,
    caller: Seq<u8>,
    beneficiary: Seq<u8>,
    amount: Balance,
    now: Timestamp,
) -> Option<Error> {
    let k = (beneficiary, caller);
    if m.paused {
        Some(Error::ContractPaused)
    } else if !m.approvals.dom().contains(k) {
        Some(Error::InsufficientAllowance)
    } else if approval_expired(m.approvals[k], now) {
        Some(Error::InsufficientAllowance)
    } else if m.approvals[k].amount < amount {
        Some(Error::InsufficientAllowance)
    } else if !has_account(m.beneficiaries, beneficiary) {
        Some(Error::BeneficiaryNotFound)
    } else if m.beneficiaries[account_index(m.beneficiaries, beneficiary)].pending_balance < amount {
        Some(Error::InsufficientBalance)
    } else {
        None
    }
}

/// Whether an approval has lapsed at time `now`.
pub open spec fn approval_expired(a: Approval, now: Timestamp) -> bool {
    match a.expires_at {
        Some(t) => now > t,
        None => false,
    }
}

/// The approvals after the one under `k` is set to `a`; a zero amount removes it.
pub open spec fn approvals_with(
    approvals: Map<(Seq<u8>, Seq<u8>), Approval>,
    k: (Seq<u8>, Seq<u8>),
    a: Approval,
) -> Map<(Seq<u8>, Seq<u8>), Approval> {
    if a.amount == 0 {
        approvals.remove(k)
    } else {
        approvals.insert(k, a)
    }
}

/// The first check that refuses `withdraw`, if any.
pub open spec fn withdraw_error(m: Model, caller: Seq<u8>, amount: Balance) -> Option<Error> {
    if m.paused {
        Some(Error::ContractPaused)
    } else if !has_account(m.beneficiaries, caller) {
        Some(Error::Unauthorized)
    } else if m.beneficiaries[account_index(m.beneficiaries, caller)].pending_balance < amount {
        Some(Error::InsufficientBalance)
    } else {
        None
    }
}

/// The first check that refuses `remove_beneficiary`, if any.
pub open spec fn remove_beneficiary_error(m: Model, caller: Seq<u8>, account: Seq<u8>) -> Option<
    Error,
> {
    if m.paused {
        Some(Error::ContractPaused)
    } else if !is_admin(m, caller) {
        Some(Error::Unauthorized)
    } else if !has_account(m.beneficiaries, account) {
        Some(Error::BeneficiaryNotFound)
    } else {
        None
    }
}

/// The first check that refuses `approve`, if any.
pub open spec fn approve_error(m: Model, caller: Seq<u8>) -> Option<Error> {
    if m.paused {
        Some(Error::ContractPaused)
    } else if !has_account(m.beneficiaries, caller) {
        Some(Error::Unauthorized)
    } else {
        None
    }
}

/// Whether a payment is split at all: there are beneficiaries with shares.
pub open spec fn splits(m: Model) -> bool {
    m.beneficiaries.len() > 0 && m.total_shares > 0
}

/// The ledger after a payment of `amount` was split over it.
pub open spec fn credited_ledger(s: Seq<Beneficiary>, amount: int) -> Seq<Beneficiary> {
    Seq::new(s.len(), |i: int| credit(s[i], amount))
}

/// A fund-splitting ledger: roles, pause gate, beneficiaries, approvals and totals.
#[derive(Clone)]
pub struct SplitPayment {
    owner: AccountId,
    managers: Vec<AccountId>,
    beneficiaries: Vec<Beneficiary>,
    total_shares: u8,
    approvals: Vec<ApprovalEntry>,
    paused: bool,
    total_received: Balance,
    total_distributed: Balance,
}

impl View for SplitPayment {
    type V = Model;

    closed spec fn view(&self) -> Model {
        Model {
            owner: self.owner@,
            managers: Set::new(|a: Seq<u8>| exists|i: int| 0 <= i < self.managers@.len() && self.managers@[i]@ == a),
            beneficiaries: self.beneficiaries@,
            total_shares: self.total_shares,
            approvals: approval_map(self.approvals@),
            paused: self.paused,
            total_received: self.total_received,
            total_distributed: self.total_distributed,
        }
    }
}

impl SplitPayment {
    /// The representation invariant: approval records have unique keys.
    pub closed spec fn rep_ok(&self) -> bool {
        keys_unique(self.approvals@)
    }

    /// The full invariant, kept by every operation.
    pub open spec fn wf(&self) -> bool {
        self.rep_ok() && model_wf(self@)
    }

    proof fn lemma_approvals_wf(&self)
        requires
            keys_unique(self.approvals@),
            forall|i: int|
                0 <= i < self.approvals@.len() ==> (#[trigger] self.approvals@[i]).1.amount > 0,
        ensures
            forall|k: (Seq<u8>, Seq<u8>)| #[trigger]
                self@.approvals.dom().contains(k) ==> self@.approvals[k].amount > 0
                    && self@.approvals[k].spender@ == k.1,
    {
        lemma_approval_map_dom(self.approvals@);
        assert forall|k: (Seq<u8>, Seq<u8>)| #[trigger]
            self@.approvals.dom().contains(k) implies self@.approvals[k].amount > 0
                && self@.approvals[k].spender@ == k.1 by {
            let i = choose|i: int| 0 <= i < self.approvals@.len() && entry_key(self.approvals@[i]) == k;
            lemma_approval_map_value(self.approvals@, i);
        }
    }

    proof fn lemma_approvals_positive(&self)
        requires
            self.wf(),
        ensures
            forall|i: int|
                0 <= i < self.approvals@.len() ==> (#[trigger] self.approvals@[i]).1.amount > 0,
    {
        assert forall|i: int| 0 <= i < self.approvals@.len() implies (
        #[trigger] self.approvals@[i]).1.amount > 0 by {
            lemma_approval_map_value(self.approvals@, i);
        }
    }

    /// Creates an empty, unpaused ledger owned by `caller`.
    pub fn new(caller: AccountId) -> (r: SplitPayment)
        ensures
            r.wf(),
            r@.owner == caller@,
            r@.managers == Set::<Seq<u8>>::empty(),
            r@.beneficiaries == Seq::<Beneficiary>::empty(),
            r@.total_shares == 0,
            r@.approvals == Map::<(Seq<u8>, Seq<u8>), Approval>::empty(),
            !r@.paused,
            r@.total_received == 0,
            r@.total_distributed == 0,
    {
        let r = SplitPayment {
            owner: caller,
            managers: Vec::new(),
            beneficiaries: Vec::new(),
            total_shares: 0,
            approvals: Vec::new(),
            paused: false,
            total_received: 0,
            total_distributed: 0,
        };
        assert(r@.managers =~= Set::<Seq<u8>>::empty());
        assert(r@.approvals =~= Map::<(Seq<u8>, Seq<u8>), Approval>::empty());
        r
    }

    /// Refuses the call while the pause gate is engaged.
    fn ensure_not_paused(&self) -> (r: Result<(), Error>)
        ensures
            r == (if self@.paused {
                Err(Error::ContractPaused)
            } else {
                Ok(())
            }),
    {
        if self.paused {
            Err(Error::ContractPaused)
        } else {
            Ok(())
        }
    }

    /// Refuses the call unless `caller` is the owner.
    fn ensure_owner(&self, caller: &AccountId) -> (r: Result<(), Error>)
        ensures
            r == (if caller@ == self@.owner {
                Ok(())
            } else {
                Err(Error::Unauthorized)
            }),
    {
        if caller.same(&self.owner) {
            Ok(())
        } else {
            Err(Error::Unauthorized)
        }
    }

    /// Refuses the call unless `caller` is the owner or a manager.
    fn ensure_manager_or_owner(&self, caller: &AccountId) -> (r: Result<(), Error>)
        ensures
            r == (if is_admin(self@, caller@) {
                Ok(())
            } else {
                Err(Error::Unauthorized)
            }),
    {
        if caller.same(&self.owner) || self.is_manager(*caller) {
            Ok(())
        } else {
            Err(Error::Unauthorized)
        }
    }

    /// Whether `account` is a manager.
    pub fn is_manager(&self, account: AccountId) -> (r: bool)
        ensures
            r == self@.managers.contains(account@),
    {
        let mut i: usize = 0;
        while i < self.managers.len()
            invariant
                0 <= i <= self.managers@.len(),
                forall|j: int| 0 <= j < i ==> self.managers@[j]@ != account@,
            decreases self.managers@.len() - i,
        {
            if self.managers[i].same(&account) {
                return true;
            }
            i = i + 1;
        }
        false
    }

    /// Registers `account` with `share_percentage` percent, on behalf of `caller`.
    pub fn add_beneficiary(&mut self, caller: AccountId, account: AccountId, share_percentage: u8) -> (r:
        Result<BeneficiaryAdded, Error>)
        requires
            old(self).wf(),
        ensures
            final(self).wf(),
            match r {
                Ok(ev) => {
                    &&& add_beneficiary_error(old(self)@, caller@, account@, share_percentage) is None
                    &&& final(self)@ == (Model {
                        beneficiaries: old(self)@.beneficiaries.push(
                            Beneficiary {
                                account,
                                share_percentage,
                                pending_balance: 0,
                                total_withdrawn: 0,
                            },
                        ),
                        total_shares: (old(self)@.total_shares + share_percentage) as u8,
                        ..old(self)@
                    })
                    &&& ev == (BeneficiaryAdded { beneficiary: account, share_percentage, added_by: caller })
                },
                Err(e) => {
                    &&& add_beneficiary_error(old(self)@, caller@, account@, share_percentage) == Some(e)
                    &&& final(self)@ == old(self)@
                },
            },
    {
        self.ensure_not_paused()?;
        self.ensure_manager_or_owner(&caller)?;
        if account.is_zero() {
            return Err(Error::InvalidBeneficiary);
        }
        if share_percentage == 0 || self.total_shares.saturating_add(share_percentage) > 100 {
            return Err(Error::InvalidShare);
        }
        if position_of(&self.beneficiaries, &account).is_some() {
            return Err(Error::InvalidBeneficiary);
        }
        let beneficiary = Beneficiary {
            account,
            share_percentage,
            pending_balance: 0,
            total_withdrawn: 0,
        };
        proof {
            lemma_shares_sum_push(self.beneficiaries@, beneficiary);
        }
        self.beneficiaries.push(beneficiary);
        self.total_shares = self.total_shares + share_percentage;
        Ok(BeneficiaryAdded { beneficiary: account, share_percentage, added_by: caller })
    }

    /// Drops the approval under (`owner`, `spender`), if there is one.
    fn remove_approval(&mut self, owner: &AccountId, spender: &AccountId)
        requires
            old(self).wf(),
        ensures
            final(self).wf(),
            final(self)@ == (Model {
                approvals: old(self)@.approvals.remove((owner@, spender@)),
                ..old(self)@
            }),
    {
        proof {
            self.lemma_approvals_positive();
            lemma_approval_map_dom(self.approvals@);
        }
        match approval_position(&self.approvals, owner, spender) {
            Some(p) => {
                proof {
                    lemma_approval_map_remove(self.approvals@, p as int);
                }
                self.approvals.remove(p);
                proof {
                    self.lemma_approvals_wf();
                }
            },
            None => {
                assert(!self@.approvals.dom().contains((owner@, spender@)));
                assert(self@.approvals =~= self@.approvals.remove((owner@, spender@)));
            },
        }
    }

    /// Sets the approval that `owner` granted to `approval.spender`; a zero
    /// amount removes it instead.
    fn put_approval(&mut self, owner: &AccountId, approval: Approval)
        requires
            old(self).wf(),
        ensures
            final(self).wf(),
            final(self)@ == (Model {
                approvals: approvals_with(
                    old(self)@.approvals,
                    (owner@, approval.spender@),
                    approval,
                ),
                ..old(self)@
            }),
    {
        self.remove_approval(owner, &approval.spender);
        if approval.amount > 0 {
            let ghost before = self.approvals@;
            proof {
                self.lemma_approvals_positive();
                lemma_approval_map_dom(before);
                assert(!self@.approvals.dom().contains((owner@, approval.spender@)));
            }
            self.approvals.push((*owner, approval));
            proof {
                assert(self.approvals@.drop_last() =~= before);
                assert(keys_unique(self.approvals@));
                self.lemma_approvals_wf();
                assert(self@.approvals =~= old(self)@.approvals.insert(
                    (owner@, approval.spender@),
                    approval,
                ));
                assert(self@.managers =~= old(self)@.managers);
            }
        }
    }

    /// Takes `amount` off the pending balance of the record at `i`.
    fn debit_at(&mut self, i: usize, amount: Balance)
        requires
            old(self).wf(),
            i < old(self)@.beneficiaries.len(),
            old(self)@.beneficiaries[i as int].pending_balance >= amount,
        ensures
            final(self).wf(),
            final(self)@ == (Model {
                beneficiaries: old(self)@.beneficiaries.update(
                    i as int,
                    debit(old(self)@.beneficiaries[i as int], amount as int),
                ),
                ..old(self)@
            }),
    {
        let mut b = self.beneficiaries[i];
        b.pending_balance = b.pending_balance - amount;
        b.total_withdrawn = b.total_withdrawn.saturating_add(amount);
        let ghost before = self.beneficiaries@;
        self.beneficiaries.set(i, b);
        proof {
            lemma_shares_sum_same_shares(before, self.beneficiaries@);
            assert(self@.managers =~= old(self)@.managers);
        }
    }

    /// Lets `caller`, as spender, withdraw `amount` out of `beneficiary`'s pending
    /// balance under the approval that `beneficiary` granted, at time `now`. On
    /// success the returned notice names the spender, to whom the host pays
    /// `amount`.
    pub fn withdraw_from(
        &mut self,
        caller: AccountId,
        beneficiary: AccountId,
        amount: Balance,
        now: Timestamp,
    ) -> (r: Result<WithdrawalByApproval, Error>)
        requires
            old(self).wf(),
        ensures
            final(self).wf(),
            match r {
                Ok(ev) => {
                    let m = old(self)@;
                    let k = (beneficiary@, caller@);
                    let i = account_index(m.beneficiaries, beneficiary@);
                    &&& withdraw_from_error(m, caller@, beneficiary@, amount, now) is None
                    &&& final(self)@ == (Model {
                        beneficiaries: m.beneficiaries.update(i, debit(m.beneficiaries[i], amount as int)),
                        approvals: approvals_with(
                            m.approvals,
                            k,
                            Approval { amount: (m.approvals[k].amount - amount) as u128, ..m.approvals[k] },
                        ),
                        ..m
                    })
                    &&& ev == (WithdrawalByApproval { beneficiary, spender: caller, amount })
                },
                Err(e) => {
                    &&& withdraw_from_error(old(self)@, caller@, beneficiary@, amount, now) == Some(e)
                    &&& final(self)@ == old(self)@
                },
            },
    {
        self.ensure_not_paused()?;
        proof {
            lemma_approval_map_dom(self.approvals@);
        }
        let p = match approval_position(&self.approvals, &beneficiary, &caller) {
            Some(p) => p,
            None => {
                return Err(Error::InsufficientAllowance);
            },
        };
        let approval = self.approvals[p].1;
        proof {
            lemma_approval_map_value(self.approvals@, p as int);
        }
        if let Some(expires_at) = approval.expires_at {
            if now > expires_at {
                return Err(Error::InsufficientAllowance);
            }
        }
        if approval.amount < amount {
            return Err(Error::InsufficientAllowance);
        }
        let i = match position_of(&self.beneficiaries, &beneficiary) {
            Some(i) => i,
            None => {
                return Err(Error::BeneficiaryNotFound);
            },
        };
        assert(i as int == account_index(self@.beneficiaries, beneficiary@));
        if self.beneficiaries[i].pending_balance < amount {
            return Err(Error::InsufficientBalance);
        }
        self.debit_at(i, amount);
        let updated = Approval { amount: approval.amount - amount, ..approval };
        self.put_approval(&beneficiary, updated);
        Ok(WithdrawalByApproval { beneficiary, spender: caller, amount })
    }

    /// Lets beneficiary `caller` withdraw `amount` of its own pending balance.
    /// On success the host pays the returned payout.
    pub fn withdraw(&mut self, caller: AccountId, amount: Balance) -> (r: Result<Payout, Error>)
        requires
            old(self).wf(),
        ensures
            final(self).wf(),
            match r {
                Ok(p) => {
                    let m = old(self)@;
                    let i = account_index(m.beneficiaries, caller@);
                    &&& withdraw_error(m, caller@, amount) is None
                    &&& final(self)@ == (Model {
                        beneficiaries: m.beneficiaries.update(i, debit(m.beneficiaries[i], amount as int)),
                        ..m
                    })
                    &&& p == (Payout { to: caller, amount })
                },
                Err(e) => {
                    &&& withdraw_error(old(self)@, caller@, amount) == Some(e)
                    &&& final(self)@ == old(self)@
                },
            },
    {
        self.ensure_not_paused()?;
        let i = match position_of(&self.beneficiaries, &caller) {
            Some(i) => i,
            None => {
                return Err(Error::Unauthorized);
            },
        };
        assert(i as int == account_index(self@.beneficiaries, caller@));
        if self.beneficiaries[i].pending_balance < amount {
            return Err(Error::InsufficientBalance);
        }
        self.debit_at(i, amount);
        Ok(Payout { to: caller, amount })
    }

    /// Removes `account` from the ledger on behalf of `caller`. Where its pending
    /// balance is positive, the second part of the result is the payout of that
    /// balance to `account`, which the host makes.
    pub fn remove_beneficiary(&mut self, caller: AccountId, account: AccountId) -> (r: Result<
        (BeneficiaryRemoved, Option<Payout>),
        Error,
    >)
        requires
            old(self).wf(),
        ensures
            final(self).wf(),
            match r {
                Ok((ev, payout)) => {
                    let m = old(self)@;
                    let i = account_index(m.beneficiaries, account@);
                    let b = m.beneficiaries[i];
                    &&& remove_beneficiary_error(m, caller@, account@) is None
                    &&& final(self)@ == (Model {
                        beneficiaries: m.beneficiaries.remove(i),
                        total_shares: (m.total_shares - b.share_percentage) as u8,
                        ..m
                    })
                    &&& ev == (BeneficiaryRemoved { beneficiary: account, removed_by: caller })
                    &&& payout == (if b.pending_balance > 0 {
                        Some(Payout { to: account, amount: b.pending_balance })
                    } else {
                        None
                    })
                },
                Err(e) => {
                    &&& remove_beneficiary_error(old(self)@, caller@, account@) == Some(e)
                    &&& final(self)@ == old(self)@
                },
            },
    {
        self.ensure_not_paused()?;
        self.ensure_manager_or_owner(&caller)?;
        let i = match position_of(&self.beneficiaries, &account) {
            Some(i) => i,
            None => {
                return Err(Error::BeneficiaryNotFound);
            },
        };
        assert(i as int == account_index(self@.beneficiaries, account@));
        let ghost before = self.beneficiaries@;
        proof {
            lemma_shares_sum_remove(before, i as int);
            lemma_shares_sum_nonneg(before.remove(i as int));
        }
        let b = self.beneficiaries.remove(i);
        self.total_shares = self.total_shares - b.share_percentage;
        proof {
            assert(self@.managers =~= old(self)@.managers);
            assert forall|x: int, y: int|
                0 <= x < self.beneficiaries@.len() && 0 <= y < self.beneficiaries@.len() && x
                    != y implies self.beneficiaries@[x].account@
                != self.beneficiaries@[y].account@ by {
                let x0 = if x < i { x } else { x + 1 };
                let y0 = if y < i { y } else { y + 1 };
                assert(self.beneficiaries@[x] == before[x0]);
                assert(self.beneficiaries@[y] == before[y0]);
            }
        }
        let payout = if b.pending_balance > 0 {
            Some(Payout { to: account, amount: b.pending_balance })
        } else {
            None
        };
        Ok((BeneficiaryRemoved { beneficiary: account, removed_by: caller }, payout))
    }

    /// Beneficiary `caller` lets `spender` withdraw up to `amount` of its balance
    /// until `expires_at`, replacing any earlier approval to `spender`. A zero
    /// amount leaves no approval in place.
    pub fn approve(
        &mut self,
        caller: AccountId,
        spender: AccountId,
        amount: Balance,
        expires_at: Option<Timestamp>,
    ) -> (r: Result<ApprovalGranted, Error>)
        requires
            old(self).wf(),
        ensures
            final(self).wf(),
            match r {
                Ok(ev) => {
                    &&& approve_error(old(self)@, caller@) is None
                    &&& final(self)@ == (Model {
                        approvals: approvals_with(
                            old(self)@.approvals,
                            (caller@, spender@),
                            Approval { spender, amount, expires_at },
                        ),
                        ..old(self)@
                    })
                    &&& ev == (ApprovalGranted { owner: caller, spender, amount, expires_at })
                },
                Err(e) => {
                    &&& approve_error(old(self)@, caller@) == Some(e)
                    &&& final(self)@ == old(self)@
                },
            },
    {
        self.ensure_not_paused()?;
        if position_of(&self.beneficiaries, &caller).is_none() {
            return Err(Error::Unauthorized);
        }
        self.put_approval(&caller, Approval { spender, amount, expires_at });
        Ok(ApprovalGranted { owner: caller, spender, amount, expires_at })
    }

    /// Drops the approval that `caller` granted to `spender`; revoking one that
    /// does not exist succeeds and changes nothing.
    pub fn revoke_approval(&mut self, caller: AccountId, spender: AccountId) -> (r: Result<
        ApprovalRevoked,
        Error,
    >)
        requires
            old(self).wf(),
        ensures
            final(self).wf(),
            old(self)@.paused ==> r == Err::<ApprovalRevoked, Error>(Error::ContractPaused)
                && final(self)@ == old(self)@,
            !old(self)@.paused ==> r == Ok::<ApprovalRevoked, Error>(
                ApprovalRevoked { owner: caller, spender },
            ) && final(self)@ == (Model {
                approvals: old(self)@.approvals.remove((caller@, spender@)),
                ..old(self)@
            }),
    {
        self.ensure_not_paused()?;
        self.remove_approval(&caller, &spender);
        Ok(ApprovalRevoked { owner: caller, spender })
    }

    /// Splits `amount` over the ledger: each beneficiary is credited its share,
    /// rounded down; what rounding leaves stays in the pooled balance. With no
    /// beneficiaries, or no shares, nothing is credited and `None` comes back.
    fn distribute_funds(&mut self, amount: Balance) -> (r: Option<FundsDistributed>)
        requires
            old(self).wf(),
        ensures
            final(self).wf(),
            splits(old(self)@) ==> {
                &&& final(self)@ == (Model {
                    beneficiaries: credited_ledger(old(self)@.beneficiaries, amount as int),
                    total_distributed: clamp_balance(
                        old(self)@.total_distributed + amount,
                    ) as u128,
                    ..old(self)@
                })
                &&& r == Some(
                    FundsDistributed {
                        total_amount: amount,
                        beneficiary_count: old(self)@.beneficiaries.len() as u32,
                    },
                )
            },
            !splits(old(self)@) ==> final(self)@ == old(self)@ && r is None,
    {
        if self.beneficiaries.len() == 0 || self.total_shares == 0 {
            return None;
        }
        let ghost before = self.beneficiaries@;
        let mut i: usize = 0;
        while i < self.beneficiaries.len()
            invariant
                0 <= i <= self.beneficiaries@.len(),
                self.beneficiaries@.len() == before.len(),
                forall|j: int| 0 <= j < i ==> self.beneficiaries@[j] == credit(before[j], amount as int),
                forall|j: int| i <= j < before.len() ==> self.beneficiaries@[j] == before[j],
                self.owner == old(self).owner,
                self.managers == old(self).managers,
                self.total_shares == old(self).total_shares,
                self.approvals == old(self).approvals,
                self.paused == old(self).paused,
                self.total_received == old(self).total_received,
                self.total_distributed == old(self).total_distributed,
            decreases before.len() - i,
        {
            let mut b = self.beneficiaries[i];
            let share = compute_share(amount, b.share_percentage);
            b.pending_balance = b.pending_balance.saturating_add(share);
            self.beneficiaries.set(i, b);
            i = i + 1;
        }
        self.total_distributed = self.total_distributed.saturating_add(amount);
        proof {
            assert(self.beneficiaries@ =~= credited_ledger(before, amount as int));
            lemma_shares_sum_same_shares(before, self.beneficiaries@);
            lemma_shares_sum_bounds_len(before);
            assert(self@.managers =~= old(self)@.managers);
        }
        Some(FundsDistributed {
            total_amount: amount,
            beneficiary_count: self.beneficiaries.len() as u32,
        })
    }

    /// Takes in a payment of `amount` from `caller` and splits it at once. The
    /// second part of the result reports the split, where there was one.
    pub fn receive_payment(&mut self, caller: AccountId, amount: Balance) -> (r: Result<
        (FundsReceived, Option<FundsDistributed>),
        Error,
    >)
        requires
            old(self).wf(),
        ensures
            final(self).wf(),
            old(self)@.paused ==> r == Err::<(FundsReceived, Option<FundsDistributed>), Error>(
                Error::ContractPaused,
            ) && final(self)@ == old(self)@,
            !old(self)@.paused ==> {
                let m = old(self)@;
                let received = clamp_balance(m.total_received + amount) as u128;
                &&& r is Ok
                &&& r->Ok_0.0 == (FundsReceived { from: caller, amount })
                &&& splits(m) ==> {
                    &&& final(self)@ == (Model {
                        beneficiaries: credited_ledger(m.beneficiaries, amount as int),
                        total_distributed: clamp_balance(m.total_distributed + amount) as u128,
                        total_received: received,
                        ..m
                    })
                    &&& r->Ok_0.1 == Some(
                        FundsDistributed {
                            total_amount: amount,
                            beneficiary_count: m.beneficiaries.len() as u32,
                        },
                    )
                }
                &&& !splits(m) ==> final(self)@ == (Model { total_received: received, ..m })
                    && r->Ok_0.1 is None
            },
    {
        self.ensure_not_paused()?;
        self.total_received = self.total_received.saturating_add(amount);
        proof {
            assert(self@.managers =~= old(self)@.managers);
        }
        let distributed = self.distribute_funds(amount);
        Ok((FundsReceived { from: caller, amount }, distributed))
    }

    /// The owner makes `manager` a manager.
    pub fn add_manager(&mut self, caller: AccountId, manager: AccountId) -> (r: Result<
        ManagerAdded,
        Error,
    >)
        requires
            old(self).wf(),
        ensures
            final(self).wf(),
            caller@ != old(self)@.owner ==> r == Err::<ManagerAdded, Error>(Error::Unauthorized)
                && final(self)@ == old(self)@,
            caller@ == old(self)@.owner ==> r == Ok::<ManagerAdded, Error>(
                ManagerAdded { manager, added_by: caller },
            ) && final(self)@ == (Model {
                managers: old(self)@.managers.insert(manager@),
                ..old(self)@
            }),
    {
        self.ensure_owner(&caller)?;
        if !self.is_manager(manager) {
            self.managers.push(manager);
        }
        proof {
            assert(self@.managers =~= old(self)@.managers.insert(manager@)) by {
                if !old(self)@.managers.contains(manager@) {
                    assert(self.managers@[self.managers@.len() - 1]@ == manager@);
                    assert forall|a: Seq<u8>| old(self)@.managers.contains(a) implies #[trigger]
                        self@.managers.contains(a) by {
                        let j = choose|j: int|
                            0 <= j < old(self).managers@.len() && old(self).managers@[j]@ == a;
                        assert(self.managers@[j] == old(self).managers@[j]);
                    }
                }
            }
        }
        Ok(ManagerAdded { manager, added_by: caller })
    }

    /// The owner withdraws the manager role from `manager`.
    pub fn remove_manager(&mut self, caller: AccountId, manager: AccountId) -> (r: Result<
        ManagerRemoved,
        Error,
    >)
        requires
            old(self).wf(),
        ensures
            final(self).wf(),
            caller@ != old(self)@.owner ==> r == Err::<ManagerRemoved, Error>(Error::Unauthorized)
                && final(self)@ == old(self)@,
            caller@ == old(self)@.owner ==> r == Ok::<ManagerRemoved, Error>(
                ManagerRemoved { manager, removed_by: caller },
            ) && final(self)@ == (Model {
                managers: old(self)@.managers.remove(manager@),
                ..old(self)@
            }),
    {
        self.ensure_owner(&caller)?;
        let mut kept: Vec<AccountId> = Vec::new();
        let mut i: usize = 0;
        while i < self.managers.len()
            invariant
                0 <= i <= self.managers@.len(),
                self.managers == old(self).managers,
                forall|j: int| 0 <= j < kept@.len() ==> #[trigger] kept@[j]@ != manager@,
                forall|j: int|
                    0 <= j < kept@.len() ==> exists|k: int|
                        0 <= k < i && (#[trigger] kept@[j])@ == self.managers@[k]@,
                forall|k: int|
                    0 <= k < i && #[trigger] self.managers@[k]@ != manager@ ==> exists|j: int|
                        0 <= j < kept@.len() && kept@[j]@ == self.managers@[k]@,
            decreases self.managers@.len() - i,
        {
            let ghost earlier = kept@;
            if !self.managers[i].same(&manager) {
                kept.push(self.managers[i]);
                assert(kept@[kept@.len() - 1]@ == self.managers@[i as int]@);
            }
            proof {
                assert forall|k: int|
                    0 <= k < i + 1 && #[trigger] self.managers@[k]@ != manager@ implies exists|j: int|
                    0 <= j < kept@.len() && kept@[j]@ == self.managers@[k]@ by {
                    if k < i {
                        let j = choose|j: int|
                            0 <= j < earlier.len() && earlier[j]@ == self.managers@[k]@;
                        assert(kept@[j] == earlier[j]);
                    } else {
                        assert(kept@[kept@.len() - 1]@ == self.managers@[k]@);
                    }
                }
            }
            i = i + 1;
        }
        self.managers = kept;
        proof {
            assert(self@.managers =~= old(self)@.managers.remove(manager@)) by {
                assert forall|a: Seq<u8>| old(self)@.managers.remove(manager@).contains(a) implies
                #[trigger] self@.managers.contains(a) by {
                    let k = choose|k: int|
                        0 <= k < old(self).managers@.len() && old(self).managers@[k]@ == a;
                    assert(old(self).managers@[k]@ != manager@);
                }
            }
        }
        Ok(ManagerRemoved { manager, removed_by: caller })
    }

    /// The owner engages the pause gate; pausing twice keeps it engaged.
    pub fn pause(&mut self, caller: AccountId) -> (r: Result<ContractPaused, Error>)
        requires
            old(self).wf(),
        ensures
            final(self).wf(),
            caller@ != old(self)@.owner ==> r == Err::<ContractPaused, Error>(Error::Unauthorized)
                && final(self)@ == old(self)@,
            caller@ == old(self)@.owner ==> r == Ok::<ContractPaused, Error>(
                ContractPaused { by: caller },
            ) && final(self)@ == (Model { paused: true, ..old(self)@ }),
    {
        self.ensure_owner(&caller)?;
        self.paused = true;
        proof {
            assert(self@.managers =~= old(self)@.managers);
        }
        Ok(ContractPaused { by: caller })
    }

    /// The owner releases the pause gate.
    pub fn unpause(&mut self, caller: AccountId) -> (r: Result<ContractUnpaused, Error>)
        requires
            old(self).wf(),
        ensures
            final(self).wf(),
            caller@ != old(self)@.owner ==> r == Err::<ContractUnpaused, Error>(Error::Unauthorized)
                && final(self)@ == old(self)@,
            caller@ == old(self)@.owner ==> r == Ok::<ContractUnpaused, Error>(
                ContractUnpaused { by: caller },
            ) && final(self)@ == (Model { paused: false, ..old(self)@ }),
    {
        self.ensure_owner(&caller)?;
        self.paused = false;
        proof {
            assert(self@.managers =~= old(self)@.managers);
        }
        Ok(ContractUnpaused { by: caller })
    }

    /// The owner hands ownership to `new_owner`.
    pub fn transfer_ownership(&mut self, caller: AccountId, new_owner: AccountId) -> (r: Result<
        (),
        Error,
    >)
        requires
            old(self).wf(),
        ensures
            final(self).wf(),
            caller@ != old(self)@.owner ==> r == Err::<(), Error>(Error::Unauthorized)
                && final(self)@ == old(self)@,
            caller@ == old(self)@.owner ==> r == Ok::<(), Error>(())
                && final(self)@ == (Model { owner: new_owner@, ..old(self)@ }),
    {
        self.ensure_owner(&caller)?;
        self.owner = new_owner;
        proof {
            assert(self@.managers =~= old(self)@.managers);
        }
        Ok(())
    }

    /// Ends an operation whose payout the host attempted: where the value was
    /// not delivered, the ledger goes back to `before`, the state the operation
    /// started from, and the operation fails with `TransferFailed`.
    pub fn settle_transfer(&mut self, before: SplitPayment, delivered: bool) -> (r: Result<(), Error>)
        requires
            old(self).wf(),
            before.wf(),
        ensures
            final(self).wf(),
            delivered ==> r == Ok::<(), Error>(()) && final(self)@ == old(self)@,
            !delivered ==> r == Err::<(), Error>(Error::TransferFailed) && final(self)@ == before@,
    {
        if delivered {
            Ok(())
        } else {
            *self = before;
            Err(Error::TransferFailed)
        }
    }

    /// The owner.
    pub fn get_owner(&self) -> (r: AccountId)
        ensures
            r@ == self@.owner,
    {
        self.owner
    }

    /// The ledger's records, in the order they were added.
    pub fn get_beneficiaries(&self) -> (r: Vec<Beneficiary>)
        ensures
            r@ == self@.beneficiaries,
    {
        let mut r: Vec<Beneficiary> = Vec::new();
        let mut i: usize = 0;
        while i < self.beneficiaries.len()
            invariant
                0 <= i <= self.beneficiaries@.len(),
                r@ == self.beneficiaries@.subrange(0, i as int),
            decreases self.beneficiaries@.len() - i,
        {
            r.push(self.beneficiaries[i]);
            i = i + 1;
            assert(r@ =~= self.beneficiaries@.subrange(0, i as int));
        }
        assert(r@ =~= self.beneficiaries@);
        r
    }

    /// The record of `account`, if it is a beneficiary.
    pub fn get_beneficiary(&self, account: AccountId) -> (r: Option<Beneficiary>)
        requires
            self.wf(),
        ensures
            has_account(self@.beneficiaries, account@) ==> r == Some(
                self@.beneficiaries[account_index(self@.beneficiaries, account@)],
            ),
            !has_account(self@.beneficiaries, account@) ==> r is None,
    {
        match position_of(&self.beneficiaries, &account) {
            Some(i) => Some(self.beneficiaries[i]),
            None => None,
        }
    }

    /// The allowance that `owner` granted to `spender`, or zero where there is
    /// none. The record's expiry is not consulted: a lapsed approval still shows
    /// its amount here until it is overwritten or revoked.
    pub fn get_approval(&self, owner: AccountId, spender: AccountId) -> (r: Balance)
        requires
            self.wf(),
        ensures
            self@.approvals.dom().contains((owner@, spender@)) ==> r == self@.approvals[(
            owner@,
            spender@,
            )].amount,
            !self@.approvals.dom().contains((owner@, spender@)) ==> r == 0,
    {
        proof {
            lemma_approval_map_dom(self.approvals@);
        }
        match approval_position(&self.approvals, &owner, &spender) {
            Some(p) => {
                proof {
                    lemma_approval_map_value(self.approvals@, p as int);
                }
                self.approvals[p].1.amount
            },
            None => 0,
        }
    }

    /// The sum of the shares of all beneficiaries.
    pub fn get_total_shares(&self) -> (r: u8)
        ensures
            r == self@.total_shares,
    {
        self.total_shares
    }

    /// Whether the pause gate is engaged.
    pub fn is_paused(&self) -> (r: bool)
        ensures
            r == self@.paused,
    {
        self.paused
    }

    /// Total received, total distributed, and the pooled balance that the host
    /// reports as `balance`.
    pub fn get_stats(&self, balance: Balance) -> (r: (Balance, Balance, Balance))
        ensures
            r == (self@.total_received, self@.total_distributed, balance),
    {
        (self.total_received, self.total_distributed, balance)
    }
}

} // verus!
