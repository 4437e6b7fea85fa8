use vstd::prelude::*;

use crate::account::{AccountId, Balance, Timestamp};
use crate::contract::{
    add_beneficiary_error, approvals_with, approve_error, credited_ledger, model_wf,
    remove_beneficiary_error, withdraw_error, withdraw_from_error, Model, SplitPayment,
};
use crate::ledger::{
    credit, credited, lemma_shares_sum_push, pending_total, share_amount, shares_sum,
};
use crate::types::{Approval, Beneficiary, Error};

verus! {

/// In every reachable state the shares add up to the recorded total, which is
/// at most one hundred, and each share lies in one to one hundred.
pub proof fn share_invariant(c: SplitPayment)
    requires
        c.wf(),
    ensures
        c@.total_shares as int == shares_sum(c@.beneficiaries),
        shares_sum(c@.beneficiaries) <= 100,
        forall|i: int|
            0 <= i < c@.beneficiaries.len() ==> 1 <= #[trigger] c@.beneficiaries[i].share_percentage
                <= 100,
{
}

/// An addition that `add_beneficiary` accepts keeps the shares within one
/// hundred, and one that would take them above is refused.
pub proof fn addition_within_cap(m: Model, caller: Seq<u8>, account: AccountId, share: u8)
    requires
        model_wf(m),
    ensures
        add_beneficiary_error(m, caller, account@, share) is None ==> shares_sum(
            m.beneficiaries.push(
                Beneficiary { account, share_percentage: share, pending_balance: 0, total_withdrawn: 0 },
            ),
        ) <= 100,
        m.total_shares + share > 100 ==> add_beneficiary_error(m, caller, account@, share) is Some,
{
    lemma_shares_sum_push(
        m.beneficiaries,
        Beneficiary { account, share_percentage: share, pending_balance: 0, total_withdrawn: 0 },
    );
}

/// Without saturation, a ledger's pending balances grow by exactly what the
/// split credits.
pub proof fn lemma_pending_total_credited(s: Seq<Beneficiary>, amount: int)
    requires
        0 <= amount,
        forall|i: int|
            0 <= i < s.len() ==> s[i].pending_balance + share_amount(
                amount,
                #[trigger] s[i].share_percentage as int,
            ) <= u128::MAX,
    ensures
        pending_total(credited_ledger(s, amount)) == pending_total(s) + credited(s, amount),
    decreases s.len(),
{
    if s.len() > 0 {
        let t = s.drop_last();
        assert(credited_ledger(s, amount).drop_last() =~= credited_ledger(t, amount));
        assert(t.len() < s.len());
        assert forall|i: int| 0 <= i < t.len() implies t[i].pending_balance + share_amount(
            amount,
            #[trigger] t[i].share_percentage as int,
        ) <= u128::MAX by {
            assert(t[i] == s[i]);
        }
        lemma_pending_total_credited(t, amount);
        let last = s[s.len() - 1];
        assert(last.pending_balance + share_amount(amount, last.share_percentage as int) <= u128::MAX);
        let sh = last.share_percentage as int;
        assert(0 <= amount * sh) by (nonlinear_arith)
            requires
                0 <= amount,
                0 <= sh,
        ;
        let cs = credited_ledger(s, amount);
        assert(cs[cs.len() - 1] == credit(last, amount));
        assert(cs[cs.len() - 1].pending_balance == last.pending_balance + share_amount(
            amount,
            last.share_percentage as int,
        ));
    }
}

/// Scaled by one hundred, the split credits the amount times the shares, less
/// under one unit per record; exactly that where no product leaves a remainder.
pub proof fn lemma_credited_scaled(s: Seq<Beneficiary>, amount: int)
    requires
        0 <= amount,
        amount * 100 <= u128::MAX,
        forall|i: int| 0 <= i < s.len() ==> #[trigger] s[i].share_percentage <= 100,
    ensures
        100 * credited(s, amount) <= amount * shares_sum(s),
        100 * credited(s, amount) >= amount * shares_sum(s) - 99 * s.len(),
        (forall|i: int| 0 <= i < s.len() ==> (amount * #[trigger] s[i].share_percentage) % 100 == 0)
            ==> 100 * credited(s, amount) == amount * shares_sum(s),
    decreases s.len(),
{
    if s.len() > 0 {
        let t = s.drop_last();
        let sh = s.last().share_percentage as int;
        assert forall|i: int| 0 <= i < t.len() implies #[trigger] t[i].share_percentage <= 100 by {
            assert(t[i] == s[i]);
        }
        lemma_credited_scaled(t, amount);
        assert(s[s.len() - 1].share_percentage <= 100);
        assert(0 <= amount * sh <= amount * 100) by (nonlinear_arith)
            requires
                0 <= amount,
                0 <= sh <= 100,
        ;
        let x = amount * sh;
        assert(share_amount(amount, sh) == x / 100);
        assert(100 * (x / 100) <= x && 100 * (x / 100) >= x - 99);
        assert(x % 100 == 0 ==> 100 * (x / 100) == x);
        assert(amount * shares_sum(s) == amount * shares_sum(t) + x) by (nonlinear_arith)
            requires
                shares_sum(s) == shares_sum(t) + sh,
                x == amount * sh,
        ;
        if forall|i: int| 0 <= i < s.len() ==> (amount * #[trigger] s[i].share_percentage) % 100 == 0 {
            assert forall|i: int| 0 <= i < t.len() implies (amount * #[trigger] t[i].share_percentage)
                % 100 == 0 by {
                assert(t[i] == s[i]);
            }
            assert(s[s.len() - 1].share_percentage == sh);
        }
    }
}

/// Conservation: on a ledger whose shares add up to one hundred, where no
/// product of the amount and a share leaves a remainder and nothing saturates,
/// the pending balances grow by exactly the amount received.
pub proof fn conservation(c: SplitPayment, amount: Balance)
    requires
        c.wf(),
        shares_sum(c@.beneficiaries) == 100,
        amount * 100 <= u128::MAX,
        forall|i: int|
            0 <= i < c@.beneficiaries.len() ==> (amount * #[trigger] c@.beneficiaries[i].share_percentage)
                % 100 == 0,
        pending_total(c@.beneficiaries) + amount <= u128::MAX,
    ensures
        credited(c@.beneficiaries, amount as int) == amount,
        pending_total(credited_ledger(c@.beneficiaries, amount as int)) == pending_total(
            c@.beneficiaries,
        ) + amount,
{
    let s = c@.beneficiaries;
    lemma_credited_scaled(s, amount as int);
    assert(amount * shares_sum(s) == amount * 100);
    lemma_pending_share_bound(s, amount as int);
    lemma_pending_total_credited(s, amount as int);
}

/// Each record's pending balance and its credit fit within the totals.
proof fn lemma_pending_share_bound(s: Seq<Beneficiary>, amount: int)
    requires
        0 <= amount,
        amount * 100 <= u128::MAX,
        forall|i: int| 0 <= i < s.len() ==> #[trigger] s[i].share_percentage <= 100,
    ensures
        forall|i: int|
            0 <= i < s.len() ==> s[i].pending_balance + share_amount(
                amount,
                #[trigger] s[i].share_percentage as int,
            ) <= pending_total(s) + credited(s, amount),
    decreases s.len(),
{
    if s.len() > 0 {
        let t = s.drop_last();
        assert forall|i: int| 0 <= i < t.len() implies #[trigger] t[i].share_percentage <= 100 by {
            assert(t[i] == s[i]);
        }
        lemma_pending_share_bound(t, amount);
        lemma_pending_total_nonneg(t);
        lemma_credited_nonneg(t, amount);
        let sh = s.last().share_percentage as int;
        assert(0 <= amount * sh) by (nonlinear_arith)
            requires
                0 <= amount,
                0 <= sh,
        ;
        assert forall|i: int| 0 <= i < s.len() implies s[i].pending_balance + share_amount(
            amount,
            #[trigger] s[i].share_percentage as int,
        ) <= pending_total(s) + credited(s, amount) by {
            if i < t.len() {
                assert(t[i] == s[i]);
            }
        }
    }
}

proof fn lemma_pending_total_nonneg(s: Seq<Beneficiary>)
    ensures
        pending_total(s) >= 0,
    decreases s.len(),
{
    if s.len() > 0 {
        lemma_pending_total_nonneg(s.drop_last());
    }
}

proof fn lemma_credited_nonneg(s: Seq<Beneficiary>, amount: int)
    requires
        0 <= amount,
    ensures
        credited(s, amount) >= 0,
    decreases s.len(),
{
    if s.len() > 0 {
        let sh = s.last().share_percentage as int;
        assert(0 <= amount * sh) by (nonlinear_arith)
            requires
                0 <= amount,
                0 <= sh,
        ;
        lemma_credited_nonneg(s.drop_last(), amount);
    }
}

/// Rounding loses less than one unit per beneficiary: on a ledger whose shares
/// add up to one hundred, and an amount whose products with the shares do not
/// saturate, the amount less what the split credits is below the number of
/// beneficiaries.
pub proof fn rounding_bound(c: SplitPayment, amount: Balance)
    requires
        c.wf(),
        shares_sum(c@.beneficiaries) == 100,
        amount * 100 <= u128::MAX,
    ensures
        amount - credited(c@.beneficiaries, amount as int) < c@.beneficiaries.len(),
{
    lemma_credited_scaled(c@.beneficiaries, amount as int);
    assert(amount * shares_sum(c@.beneficiaries) == amount * 100);
    assert(c@.beneficiaries.len() > 0);
}

/// A delegated withdrawal that is accepted never takes the allowance below
/// zero: it leaves the old amount less the withdrawal, which is positive where
/// a record remains, and no record where it comes to zero.
pub proof fn allowance_after_withdrawal(
    m: Model,
    caller: Seq<u8>,
    beneficiary: Seq<u8>,
    amount: Balance,
    now: Timestamp,
)
    requires
        model_wf(m),
        withdraw_from_error(m, caller, beneficiary, amount, now) is None,
    ensures
        ({
            let k = (beneficiary, caller);
            let left = (m.approvals[k].amount - amount) as u128;
            let after = approvals_with(m.approvals, k, Approval { amount: left, ..m.approvals[k] });
            &&& amount <= m.approvals[k].amount
            &&& after.dom().contains(k) ==> after[k].amount == m.approvals[k].amount - amount
                && after[k].amount > 0
            &&& m.approvals[k].amount == amount ==> !after.dom().contains(k)
        }),
{
}

/// While paused, every operation of the ledger, of approvals and of
/// withdrawals is refused with `ContractPaused`, whoever calls it and on
/// whatever arguments.
pub proof fn paused_refuses(
    m: Model,
    caller: Seq<u8>,
    account: Seq<u8>,
    share: u8,
    amount: Balance,
    now: Timestamp,
)
    requires
        m.paused,
    ensures
        add_beneficiary_error(m, caller, account, share) == Some(Error::ContractPaused),
        remove_beneficiary_error(m, caller, account) == Some(Error::ContractPaused),
        approve_error(m, caller) == Some(Error::ContractPaused),
        withdraw_error(m, caller, amount) == Some(Error::ContractPaused),
        withdraw_from_error(m, caller, account, amount, now) == Some(Error::ContractPaused),
{
}

} // verus!
