//! The sum of the balances of a ledger, and what inserting and removing
//! entries does to it.

use vstd::prelude::*;

verus! {

/// The sum of all the balances that a finite map holds.
pub open spec fn total(balances: Map<u128, u64>) -> nat
    decreases balances.dom().len(),
    when balances.dom().finite()
{
    if balances.dom().len() == 0 {
        0
    } else {
        let id = balances.dom().choose();
        balances[id] as nat + total(balances.remove(id))
    }
}

/// Any one entry can be split off the sum.
pub proof fn lemma_total_remove(balances: Map<u128, u64>, id: u128)
    requires
        balances.dom().finite(),
        balances.contains_key(id),
    ensures
        total(balances) == balances[id] + total(balances.remove(id)),
    decreases balances.dom().len(),
{
    let first = balances.dom().choose();
    if first != id {
        let rest = balances.remove(first);
        lemma_total_remove(rest, id);
        lemma_total_remove(balances.remove(id), first);
        assert(rest.remove(id) =~= balances.remove(id).remove(first));
    }
}

/// Writing an entry replaces its share of the sum.
pub proof fn lemma_total_insert(balances: Map<u128, u64>, id: u128, amount: u64)
    requires
        balances.dom().finite(),
    ensures
        total(balances.insert(id, amount)) == total(balances.remove(id)) + amount,
{
    lemma_total_remove(balances.insert(id, amount), id);
    assert(balances.insert(id, amount).remove(id) =~= balances.remove(id));
}

/// No balance exceeds the sum.
pub proof fn lemma_balance_le_total(balances: Map<u128, u64>, id: u128)
    requires
        balances.dom().finite(),
        balances.contains_key(id),
    ensures
        balances[id] <= total(balances),
{
    lemma_total_remove(balances, id);
}

/// A part of the balances sums to no more than all of them.
pub proof fn lemma_total_of_part(part: Map<u128, u64>, balances: Map<u128, u64>)
    requires
        balances.dom().finite(),
        part.dom().finite(),
        forall|id: u128| #[trigger]
            part.contains_key(id) ==> balances.contains_key(id) && part[id] == balances[id],
    ensures
        total(part) <= total(balances),
    decreases part.dom().len(),
{
    if part.dom().len() != 0 {
        let id = part.dom().choose();
        lemma_total_remove(part, id);
        lemma_total_remove(balances, id);
        lemma_total_of_part(part.remove(id), balances.remove(id));
    }
}

} // verus!
