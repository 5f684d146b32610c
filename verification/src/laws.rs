//! What holds of the operations of a company, stated and proved over its
//! ledger: each keeps the invariant, and hiring, firing, transferring and
//! moving keep the sum of the balances.

use vstd::prelude::*;
use crate::balances::{
    lemma_balance_le_total,
    lemma_total_insert,
    lemma_total_remove,
    total,
};
use crate::ledger::{ranked, Ledger, Step};

verus! {

/// A new company is well formed and owns nothing.
pub proof fn lemma_founded<V>(id: u128, ceo: V)
    ensures
        Ledger::founded(id, ceo).wf(),
        Ledger::founded(id, ceo).total() == 0,
        Ledger::founded(id, ceo).resources[id] == 0,
{
    let l = Ledger::founded(id, ceo);
    lemma_total_insert(Map::<u128, u64>::empty(), id, 0);
    let rank = |k: u128| 0nat;
    assert(ranked(l.supervisors, rank));
}

/// Setting one member's balance changes the sum by the difference, and
/// keeps the invariant as long as the sum still fits.
pub proof fn lemma_with_balance<V>(l: Ledger<V>, id: u128, amount: u64)
    requires
        l.wf(),
        l.contains(id),
        l.total() - l.resources[id] + amount <= u64::MAX,
    ensures
        l.with_balance(id, amount).wf(),
        l.with_balance(id, amount).total() == l.total() - l.resources[id] + amount,
{
    lemma_total_remove(l.resources, id);
    lemma_total_insert(l.resources, id, amount);
}

/// Minting adds exactly the minted amount to the sum and to the CEO.
pub proof fn lemma_minted<V>(l: Ledger<V>, amount: u64)
    requires
        l.wf(),
        l.total() + amount <= u64::MAX,
    ensures
        l.resources[l.ceo] + amount <= u64::MAX,
        l.minted(amount).wf(),
        l.minted(amount).total() == l.total() + amount,
        l.minted(amount).resources[l.ceo] == l.resources[l.ceo] + amount,
{
    lemma_balance_le_total(l.resources, l.ceo);
    lemma_with_balance(l, l.ceo, (l.resources[l.ceo] + amount) as u64);
}

/// Withdrawing what a member owns, or less, takes exactly that from the sum.
pub proof fn lemma_withdrawn<V>(l: Ledger<V>, id: u128, amount: u64)
    requires
        l.wf(),
        l.contains(id),
        amount <= l.resources[id],
    ensures
        l.withdrawn(id, amount).wf(),
        l.withdrawn(id, amount).total() == l.total() - amount,
{
    lemma_with_balance(l, id, (l.resources[id] - amount) as u64);
}

/// Crediting a member adds exactly the amount to the sum.
pub proof fn lemma_credited<V>(l: Ledger<V>, id: u128, amount: u64)
    requires
        l.wf(),
        l.contains(id),
        l.total() + amount <= u64::MAX,
    ensures
        l.resources[id] + amount <= u64::MAX,
        l.credited(id, amount).wf(),
        l.credited(id, amount).total() == l.total() + amount,
{
    lemma_balance_le_total(l.resources, id);
    lemma_with_balance(l, id, (l.resources[id] + amount) as u64);
}

/// A transfer that the sender can afford keeps the invariant and the sum.
pub proof fn lemma_transferred<V>(l: Ledger<V>, from: u128, to: u128, amount: u64)
    requires
        l.wf(),
        l.contains(from),
        l.contains(to),
        amount <= l.resources[from],
    ensures
        l.transferred(from, to, amount).wf(),
        l.transferred(from, to, amount).total() == l.total(),
        l.withdrawn(from, amount).resources[to] + amount <= u64::MAX,
{
    lemma_withdrawn(l, from, amount);
    lemma_credited(l.withdrawn(from, amount), to, amount);
}

/// Hiring keeps the invariant and the sum: the seed of the new member is
/// what its supervisor gives up.
pub proof fn lemma_hired<V>(l: Ledger<V>, id: u128, entity: V, supervisor: u128)
    requires
        l.wf(),
        l.contains(supervisor),
        !l.contains(id),
    ensures
        l.hired(id, entity, supervisor).wf(),
        l.hired(id, entity, supervisor).total() == l.total(),
{
    let h = l.hired(id, entity, supervisor);
    let seed = l.seed(supervisor);
    let paid = l.resources.insert(supervisor, (l.resources[supervisor] - seed) as u64);
    lemma_total_remove(l.resources, supervisor);
    lemma_total_insert(l.resources, supervisor, (l.resources[supervisor] - seed) as u64);
    lemma_total_insert(paid, id, seed);
    assert(paid.remove(id) =~= paid);
    let rank = choose|rank: spec_fn(u128) -> nat| ranked(l.supervisors, rank);
    let grown = |k: u128|
        if k == id {
            rank(supervisor) + 1
        } else {
            rank(k)
        };
    assert(ranked(h.supervisors, grown));
}

/// Firing a member other than the CEO keeps the invariant and the sum: what
/// the member owned is with its supervisor.
pub proof fn lemma_fired<V>(l: Ledger<V>, id: u128)
    requires
        l.wf(),
        l.contains(id),
        id != l.ceo,
    ensures
        l.fired(id).wf(),
        l.fired(id).total() == l.total(),
        l.supervisors[id] != id,
        l.contains(l.supervisors[id]),
        l.resources[l.supervisors[id]] + l.resources[id] <= u64::MAX,
{
    let f = l.fired(id);
    let supervisor = l.supervisors[id];
    let rank = choose|rank: spec_fn(u128) -> nat| ranked(l.supervisors, rank);
    assert(l.supervisors.contains_key(id));
    let rest = l.resources.remove(id);
    lemma_total_remove(l.resources, id);
    lemma_total_remove(rest, supervisor);
    lemma_total_insert(rest, supervisor, (l.resources[supervisor] + l.resources[id]) as u64);
    assert(ranked(f.supervisors, rank));
}

/// One step up from `id` and then `steps` more is `steps + 1` from `id`.
pub proof fn lemma_ancestor_shift<V>(l: Ledger<V>, id: u128, steps: nat)
    requires
        l.supervisors.contains_key(id),
    ensures
        l.ancestor(id, steps + 1) == l.ancestor(l.supervisors[id], steps),
    decreases steps,
{
    reveal_with_fuel(Ledger::ancestor, 2);
    if steps > 0 {
        lemma_ancestor_shift(l, id, (steps - 1) as nat);
    }
}

/// Once the chain has come to an entity without supervisor, it stays there.
pub proof fn lemma_ancestor_rests<V>(l: Ledger<V>, id: u128, steps: nat, more: nat)
    requires
        !l.supervisors.contains_key(l.ancestor(id, steps)),
        steps <= more,
    ensures
        l.ancestor(id, more) == l.ancestor(id, steps),
    decreases more,
{
    if steps < more {
        lemma_ancestor_rests(l, id, steps, (more - 1) as nat);
    }
}

proof fn lemma_climb<V>(l: Ledger<V>, rank: spec_fn(u128) -> nat, id: u128)
    requires
        l.wf(),
        l.contains(id),
        ranked(l.supervisors, rank),
    ensures
        l.in_chain(l.ceo, id),
    decreases rank(id),
{
    if id == l.ceo {
        assert(l.ancestor(id, 0) == l.ceo);
    } else {
        assert(l.supervisors.contains_key(id));
        let above = l.supervisors[id];
        lemma_climb(l, rank, above);
        let steps = choose|steps: nat| l.ancestor(above, steps) == l.ceo;
        lemma_ancestor_shift(l, id, steps);
    }
}

/// From every member the chain of supervisors comes to the CEO after
/// finitely many steps.
pub proof fn lemma_chain_reaches_ceo<V>(l: Ledger<V>, id: u128)
    requires
        l.wf(),
        l.contains(id),
    ensures
        l.in_chain(l.ceo, id),
{
    let rank = choose|rank: spec_fn(u128) -> nat| ranked(l.supervisors, rank);
    lemma_climb(l, rank, id);
}

/// Whoever has `above` in the chain of its supervisor, or is `above`, has
/// it in its own chain, and nobody else has.
pub proof fn lemma_in_chain_step<V>(l: Ledger<V>, above: u128, id: u128)
    requires
        l.supervisors.contains_key(id),
    ensures
        l.in_chain(above, id) <==> above == id || l.in_chain(above, l.supervisors[id]),
{
    let next = l.supervisors[id];
    if l.in_chain(above, id) && above != id {
        let steps = choose|steps: nat| l.ancestor(id, steps) == above;
        lemma_ancestor_shift(l, id, (steps - 1) as nat);
    }
    if above == id {
        assert(l.ancestor(id, 0) == above);
    }
    if l.in_chain(above, next) {
        let steps = choose|steps: nat| l.ancestor(next, steps) == above;
        lemma_ancestor_shift(l, id, steps);
    }
}

/// Moving a member under a supervisor that it does not stand above keeps
/// the invariant and every balance.
pub proof fn lemma_moved<V>(l: Ledger<V>, id: u128, supervisor: u128)
    requires
        l.wf(),
        l.contains(id),
        l.contains(supervisor),
        !l.in_chain(id, supervisor),
    ensures
        id != l.ceo,
        l.moved(id, supervisor).wf(),
        l.moved(id, supervisor).total() == l.total(),
{
    let m = l.moved(id, supervisor);
    lemma_chain_reaches_ceo(l, supervisor);
    assert(l.supervisors.contains_key(id));
    let rank = choose|rank: spec_fn(u128) -> nat| ranked(l.supervisors, rank);
    let lifted = |k: u128|
        if l.in_chain(id, k) {
            rank(k) + rank(supervisor) + 1
        } else {
            rank(k)
        };
    assert(ranked(m.supervisors, lifted)) by {
        assert forall|k: u128| #[trigger] m.supervisors.contains_key(k) implies lifted(
            m.supervisors[k],
        ) < lifted(k) by {
            if k == id {
                assert(l.ancestor(id, 0) == id);
            } else {
                lemma_in_chain_step(l, id, k);
            }
        }
    }
}

/// Whether a step is accepted or refused, the invariant holds after it and
/// the sum of the balances is what it was.
pub proof fn lemma_step_conserves<V>(l: Ledger<V>, step: Step<V>)
    requires
        l.wf(),
    ensures
        l.after(step).wf(),
        l.after(step).total() == l.total(),
{
    match step {
        Step::Hire { id, entity, supervisor } => {
            if l.hire_error(id, supervisor) is None {
                lemma_hired(l, id, entity, supervisor);
            }
        },
        Step::Fire { id } => {
            if l.fire_error(id) is None {
                lemma_fired(l, id);
            }
        },
        Step::Transfer { from, to, amount } => {
            if l.transfer_error(from, to, amount) is None {
                lemma_transferred(l, from, to, amount);
            }
        },
        Step::Move { id, supervisor } => {
            if l.move_error(id, supervisor) is None {
                lemma_moved(l, id, supervisor);
            }
        },
    }
}

/// Conservation: after any sequence of hires, fires, transfers and changes
/// of supervisor, accepted or refused, the invariant holds and the sum of
/// all balances is what it was before the first of them. Only minting and
/// withdrawing change the sum.
pub proof fn lemma_conservation<V>(l: Ledger<V>, steps: Seq<Step<V>>)
    requires
        l.wf(),
    ensures
        l.after_all(steps).wf(),
        l.after_all(steps).total() == l.total(),
    decreases steps.len(),
{
    if steps.len() > 0 {
        lemma_conservation(l, steps.drop_last());
        lemma_step_conserves(l.after_all(steps.drop_last()), steps.last());
    }
}

/// A CEO who is alone in the company holds the whole sum: once everybody
/// else has been fired, everything that was minted and not withdrawn is on
/// the balance of the CEO.
pub proof fn lemma_lone_ceo_holds_all<V>(l: Ledger<V>)
    requires
        l.wf(),
        forall|id: u128| #[trigger] l.staff.contains_key(id) ==> id == l.ceo,
    ensures
        l.resources[l.ceo] == l.total(),
{
    lemma_total_remove(l.resources, l.ceo);
    let others = l.resources.remove(l.ceo);
    assert forall|id: u128| !others.contains_key(id) by {
        if others.contains_key(id) {
            assert(l.resources.contains_key(id));
        }
    }
    assert(others.dom() =~= Set::empty());
}

/// Reads are repeatable: whatever two reads of the same id say of one
/// ledger, they say the same. This holds of the entity, of the balance, of
/// the supervisor and of the set of direct subordinates.
pub proof fn lemma_reads_agree<V>(
    l: Ledger<V>,
    id: u128,
    entity: Option<&V>,
    entity_again: Option<&V>,
    balance: Option<&u64>,
    balance_again: Option<&u64>,
    supervisor: Option<&u128>,
    supervisor_again: Option<&u128>,
    team: Option<Set<u128>>,
    team_again: Option<Set<u128>>,
)
    requires
        l.reads_entity(id, entity),
        l.reads_entity(id, entity_again),
        l.reads_balance(id, balance),
        l.reads_balance(id, balance_again),
        l.reads_supervisor(id, supervisor),
        l.reads_supervisor(id, supervisor_again),
        l.reads_subordinates(id, team),
        l.reads_subordinates(id, team_again),
    ensures
        entity == entity_again,
        balance == balance_again,
        supervisor == supervisor_again,
        team == team_again,
{
}

} // verus!
