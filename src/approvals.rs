use vstd::prelude::*;

use crate::account::AccountId;
use crate::types::Approval;

verus! {

/// An approval record together with the beneficiary that granted it.
pub type ApprovalEntry = (AccountId, Approval);

/// The key of an approval record: granting beneficiary, then spender.
pub open spec fn entry_key(e: ApprovalEntry) -> (Seq<u8>, Seq<u8>) {
    (e.0@, e.1.spender@)
}

/// The approvals of a list of records, as a map from their keys.
pub open spec fn approval_map(s: Seq<ApprovalEntry>) -> Map<(Seq<u8>, Seq<u8>), Approval>
    decreases s.len(),
{
    if s.len() == 0 {
        Map::empty()
    } else {
        approval_map(s.drop_last()).insert(entry_key(s.last()), s.last().1)
    }
}

/// No two records share a key.
pub open spec fn keys_unique(s: Seq<ApprovalEntry>) -> bool {
    forall|i: int, j: int|
        0 <= i < s.len() && 0 <= j < s.len() && i != j ==> entry_key(s[i]) != entry_key(s[j])
}

/// The map holds a key exactly when some record has it, and each record's value.
pub proof fn lemma_approval_map_dom(s: Seq<ApprovalEntry>)
    ensures
        forall|k: (Seq<u8>, Seq<u8>)|
            approval_map(s).dom().contains(k) <==> exists|i: int|
                0 <= i < s.len() && entry_key(s[i]) == k,
    decreases s.len(),
{
    if s.len() > 0 {
        let t = s.drop_last();
        lemma_approval_map_dom(t);
        assert forall|k: (Seq<u8>, Seq<u8>)|
            approval_map(s).dom().contains(k) <==> exists|i: int|
                0 <= i < s.len() && entry_key(s[i]) == k by {
            if approval_map(t).dom().contains(k) {
                let i = choose|i: int| 0 <= i < t.len() && entry_key(t[i]) == k;
                assert(entry_key(s[i]) == k);
            }
            if exists|i: int| 0 <= i < s.len() && entry_key(s[i]) == k {
                let i = choose|i: int| 0 <= i < s.len() && entry_key(s[i]) == k;
                if i < s.len() - 1 {
                    assert(entry_key(t[i]) == k);
                }
            }
        }
    }
}

/// With unique keys, the map gives each record's approval under its key.
pub proof fn lemma_approval_map_value(s: Seq<ApprovalEntry>, i: int)
    requires
        keys_unique(s),
        0 <= i < s.len(),
    ensures
        approval_map(s).dom().contains(entry_key(s[i])),
        approval_map(s)[entry_key(s[i])] == s[i].1,
    decreases s.len(),
{
    lemma_approval_map_dom(s);
    if i < s.len() - 1 {
        lemma_approval_map_value(s.drop_last(), i);
    }
}

/// With unique keys, dropping a record drops its key from the map.
pub proof fn lemma_approval_map_remove(s: Seq<ApprovalEntry>, i: int)
    requires
        keys_unique(s),
        0 <= i < s.len(),
    ensures
        approval_map(s.remove(i)) == approval_map(s).remove(entry_key(s[i])),
    decreases s.len(),
{
    let t = s.drop_last();
    lemma_approval_map_dom(t);
    if i == s.len() - 1 {
        assert(s.remove(i) =~= t);
        assert(!approval_map(t).dom().contains(entry_key(s[i])));
        assert(approval_map(s.remove(i)) =~= approval_map(s).remove(entry_key(s[i])));
    } else {
        lemma_approval_map_remove(t, i);
        assert(s.remove(i) =~= t.remove(i).push(s.last()));
        assert(s.remove(i).drop_last() =~= t.remove(i));
        assert(entry_key(s[i]) != entry_key(s[s.len() - 1]));
        assert(approval_map(s.remove(i)) =~= approval_map(s).remove(entry_key(s[i])));
    }
}

/// The position of the record with key (`owner`, `spender`), if any.
pub fn approval_position(v: &Vec<ApprovalEntry>, owner: &AccountId, spender: &AccountId) -> (r:
    Option<usize>)
    ensures
        match r {
            Some(i) => i < v@.len() && entry_key(v@[i as int]) == (owner@, spender@),
            None => forall|i: int| 0 <= i < v@.len() ==> entry_key(v@[i]) != (owner@, spender@),
        },
{
    let mut i: usize = 0;
    while i < v.len()
        invariant
            0 <= i <= v@.len(),
            forall|j: int| 0 <= j < i ==> entry_key(v@[j]) != (owner@, spender@),
        decreases v@.len() - i,
    {
        if v[i].0.same(owner) && v[i].1.spender.same(spender) {
            return Some(i);
        }
        i = i + 1;
    }
    None
}

} // verus!
