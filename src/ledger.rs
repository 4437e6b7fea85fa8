use vstd::prelude::*;

use crate::account::{AccountId, Balance};
use crate::types::Beneficiary;

verus! {

/// Clamps a mathematical integer into the range of `Balance`.
pub open spec fn clamp_balance(x: int) -> int {
    if x > u128::MAX as int {
        u128::MAX as int
    } else {
        x
    }
}

/// What one beneficiary with `share` percent is credited out of `amount`:
/// the saturated product, divided by one hundred and rounded down.
pub open spec fn share_amount(amount: int, share: int) -> int {
    clamp_balance(amount * share) / 100
}

/// Sum of the share percentages of a ledger.
pub open spec fn shares_sum(s: Seq<Beneficiary>) -> int
    decreases s.len(),
{
    if s.len() == 0 {
        0
    } else {
        shares_sum(s.drop_last()) + s.last().share_percentage as int
    }
}

/// Sum of what every beneficiary of a ledger is credited out of `amount`.
pub open spec fn credited(s: Seq<Beneficiary>, amount: int) -> int
    decreases s.len(),
{
    if s.len() == 0 {
        0
    } else {
        credited(s.drop_last(), amount) + share_amount(amount, s.last().share_percentage as int)
    }
}

/// Sum of the pending balances of a ledger.
pub open spec fn pending_total(s: Seq<Beneficiary>) -> int
    decreases s.len(),
{
    if s.len() == 0 {
        0
    } else {
        pending_total(s.drop_last()) + s.last().pending_balance as int
    }
}

/// Whether `a` is the account of some record of the ledger.
pub open spec fn has_account(s: Seq<Beneficiary>, a: Seq<u8>) -> bool {
    exists|i: int| 0 <= i < s.len() && s[i].account@ == a
}

/// A ledger is well formed when its accounts are unique, each share lies in
/// one to one hundred, and the shares add up to at most one hundred.
pub open spec fn ledger_wf(s: Seq<Beneficiary>) -> bool {
    &&& forall|i: int, j: int|
        0 <= i < s.len() && 0 <= j < s.len() && i != j ==> s[i].account@ != s[j].account@
    &&& forall|i: int| 0 <= i < s.len() ==> 1 <= #[trigger] s[i].share_percentage <= 100
    &&& shares_sum(s) <= 100
}

/// The index of the record that holds `a` (meaningful when there is one).
pub open spec fn account_index(s: Seq<Beneficiary>, a: Seq<u8>) -> int {
    choose|i: int| 0 <= i < s.len() && s[i].account@ == a
}

/// A record after a payment of `amount`: its share is added, saturating.
pub open spec fn credit(b: Beneficiary, amount: int) -> Beneficiary {
    Beneficiary {
        pending_balance: clamp_balance(
            b.pending_balance as int + share_amount(amount, b.share_percentage as int),
        ) as u128,
        ..b
    }
}

/// A record after `amount` was withdrawn from it.
pub open spec fn debit(b: Beneficiary, amount: int) -> Beneficiary {
    Beneficiary {
        pending_balance: (b.pending_balance - amount) as u128,
        total_withdrawn: clamp_balance(b.total_withdrawn as int + amount) as u128,
        ..b
    }
}

/// The position of the record that holds `a`, if any.
pub fn position_of(v: &Vec<Beneficiary>, a: &AccountId) -> (r: Option<usize>)
    ensures
        match r {
            Some(i) => i < v@.len() && v@[i as int].account@ == a@,
            None => !has_account(v@, a@),
        },
{
    let mut i: usize = 0;
    while i < v.len()
        invariant
            0 <= i <= v@.len(),
            forall|j: int| 0 <= j < i ==> v@[j].account@ != a@,
        decreases v@.len() - i,
    {
        if v[i].account.same(a) {
            return Some(i);
        }
        i = i + 1;
    }
    None
}

/// What one share of `amount` comes to, with the multiplication saturating.
pub fn compute_share(amount: Balance, share: u8) -> (r: Balance)
    ensures
        r == share_amount(amount as int, share as int),
{
    if share == 0 {
        assert(amount as int * 0 == 0) by (nonlinear_arith);
        return 0;
    }
    let product: Balance = if amount > u128::MAX / (share as u128) {
        assert(amount as int * share as int > u128::MAX as int) by (nonlinear_arith)
            requires
                amount as int > u128::MAX as int / share as int,
                share as int >= 1,
        ;
        u128::MAX
    } else {
        assert(amount as int * share as int <= u128::MAX as int) by (nonlinear_arith)
            requires
                amount as int <= u128::MAX as int / share as int,
                share as int >= 1,
        ;
        amount * (share as u128)
    };
    product / 100
}

/// The sum of the shares of a prefix grows by the share of the next record.
pub proof fn lemma_shares_sum_push(s: Seq<Beneficiary>, b: Beneficiary)
    ensures
        shares_sum(s.push(b)) == shares_sum(s) + b.share_percentage as int,
{
    assert(s.push(b).drop_last() =~= s);
}

/// Shares are never negative, so no part of a ledger sums above the whole.
pub proof fn lemma_shares_sum_nonneg(s: Seq<Beneficiary>)
    ensures
        shares_sum(s) >= 0,
    decreases s.len(),
{
    if s.len() > 0 {
        lemma_shares_sum_nonneg(s.drop_last());
    }
}

/// Removing the record at `i` takes its share off the sum.
pub proof fn lemma_shares_sum_remove(s: Seq<Beneficiary>, i: int)
    requires
        0 <= i < s.len(),
    ensures
        shares_sum(s.remove(i)) == shares_sum(s) - s[i].share_percentage as int,
    decreases s.len(),
{
    if i == s.len() - 1 {
        assert(s.remove(i) =~= s.drop_last());
    } else {
        lemma_shares_sum_remove(s.drop_last(), i);
        assert(s.remove(i) =~= s.drop_last().remove(i).push(s.last()));
        lemma_shares_sum_push(s.drop_last().remove(i), s.last());
    }
}

/// Every share is at least one, so a ledger has no more records than its sum.
pub proof fn lemma_shares_sum_bounds_len(s: Seq<Beneficiary>)
    requires
        forall|i: int| 0 <= i < s.len() ==> 1 <= #[trigger] s[i].share_percentage,
    ensures
        shares_sum(s) >= s.len(),
    decreases s.len(),
{
    if s.len() > 0 {
        lemma_shares_sum_bounds_len(s.drop_last());
    }
}

/// Changing balances, and nothing else, keeps the sum of shares.
pub proof fn lemma_shares_sum_same_shares(s: Seq<Beneficiary>, t: Seq<Beneficiary>)
    requires
        s.len() == t.len(),
        forall|i: int| 0 <= i < s.len() ==> s[i].share_percentage == t[i].share_percentage,
    ensures
        shares_sum(s) == shares_sum(t),
    decreases s.len(),
{
    if s.len() > 0 {
        lemma_shares_sum_same_shares(s.drop_last(), t.drop_last());
    }
}

} // verus!
