//! The company: the owner of all staff entities, of the supervision tree
//! and of the balances.

use std::collections::HashMap;
use std::collections::HashSet;
use vstd::prelude::*;
use crate::balances::{lemma_total_insert, lemma_total_of_part, total};
use crate::errors::Error;
use crate::laws::{
    lemma_ancestor_rests,
    lemma_fired,
    lemma_founded,
    lemma_hired,
    lemma_minted,
    lemma_moved,
    lemma_transferred,
    lemma_withdrawn,
};
use crate::ledger::{ranked, Ledger, Step};
use crate::numeric::{from_i16, zero};
use crate::traits::StaffEntity;

verus! {

/// A company: staff entities of type `V` in a supervision tree under one
/// CEO, each with a balance of resources.
///
/// Staff is addressed by id only. The company alone owns the entities, the
/// tree and the balances; its model is the [`Ledger`] that `view` returns,
/// and every operation keeps `Ledger::wf`.
pub struct Company<V: StaffEntity<ID = u128>> {
    ceo_id: u128,
    staff: HashMap<u128, V>,
    resources: HashMap<u128, u64>,
    supervisors: HashMap<u128, u128>,
    subordinates: HashMap<u128, HashSet<u128>>,
}

impl<V: StaffEntity<ID = u128>> View for Company<V> {
    type V = Ledger<V>;

    closed spec fn view(&self) -> Ledger<V> {
        Ledger {
            ceo: self.ceo_id,
            staff: self.staff@,
            resources: self.resources@,
            supervisors: self.supervisors@,
            subordinates: self.subordinates@.map_values(|s: HashSet<u128>| s@),
        }
    }
}

impl<V: StaffEntity<ID = u128>> Company<V> {
    /// Creates a company that holds `ceo` alone, with a balance of zero,
    /// under the id that `ceo` reports: see [`Company::new_with_id`].
    pub fn new(ceo: V) -> (company: Self)
        ensures
            company@.wf(),
            company@ == Ledger::founded(company@.ceo, ceo),
            company@.total() == 0,
    {
        let ceo_id = ceo.get_id();
        Self::new_with_id(ceo_id, ceo)
    }

    /// Creates a company that holds `ceo` alone, with a balance of zero, to
    /// be known by `ceo_id`.
    pub fn new_with_id(ceo_id: u128, ceo: V) -> (company: Self)
        ensures
            company@.wf(),
            company@ == Ledger::founded(ceo_id, ceo),
            company@.total() == 0,
    {
        let mut resources: HashMap<u128, u64> = HashMap::new();
        resources.insert(ceo_id, zero());
        let mut staff: HashMap<u128, V> = HashMap::new();
        staff.insert(ceo_id, ceo);
        let company = Company {
            ceo_id,
            staff,
            resources,
            supervisors: HashMap::new(),
            subordinates: HashMap::new(),
        };
        proof {
            lemma_founded(ceo_id, ceo);
        }
        company
    }

    /// Returns the id under which the CEO is kept.
    pub fn ceo_id(&self) -> (id: u128)
        ensures
            id == self@.ceo,
    {
        self.ceo_id
    }

    /// Returns the CEO.
    pub fn ceo(&self) -> (r: Option<&V>)
        ensures
            self@.reads_entity(self@.ceo, r),
            self@.wf() ==> r is Some,
    {
        self.staff.get(&self.ceo_id)
    }

    /// Returns the CEO, for the caller to change. The company keeps it
    /// under the id it joined with, whatever the caller writes.
    pub fn ceo_mut(&mut self) -> (r: Option<&mut V>)
        ensures
            old(self)@.wf() ==> final(self)@.wf(),
            match r {
                Some(v) => old(self)@.contains(old(self)@.ceo)
                    && *v == old(self)@.staff[old(self)@.ceo]
                    && final(self)@ == old(self)@.with_entity(old(self)@.ceo, *final(v)),
                None => !old(self)@.contains(old(self)@.ceo) && final(self)@ == old(self)@,
            },
    {
        let ceo_id = self.ceo_id;
        self.get_mut(&ceo_id)
    }

    /// Returns the ids of all staff entities, each once, in no particular
    /// order.
    pub fn get_all_staff(&self) -> (ids: Vec<u128>)
        ensures
            ids@.no_duplicates(),
            ids@.to_set() == self@.staff.dom(),
            ids@.len() == self@.staff.dom().len(),
    {
        let mut ids: Vec<u128> = Vec::new();
        for id in it: self.staff.keys()
            invariant
                // every member comes by, and what has come by is in `ids`
                forall|x: u128|
                    self.staff@.contains_key(x) ==> exists|j: int|
                        0 <= j < it.seq().len() && *#[trigger] it.seq()[j] == x,
                ids@.len() == it.index(),
                forall|j: int|
                    #![trigger ids@[j]]
                    #![trigger it.seq()[j]]
                    0 <= j < it.index() ==> ids@[j] == *it.seq()[j],
                forall|j: int|
                    0 <= j < ids@.len() ==> self.staff@.contains_key(#[trigger] ids@[j]),
                forall|i: int, j: int| 0 <= i < j < ids@.len() ==> ids@[i] != ids@[j],
        {
            ids.push(*id);
        }
        ids
    }

    /// Returns the staff entity with this id, if it is in the company.
    pub fn get(&self, staff_id: &u128) -> (r: Option<&V>)
        ensures
            self@.reads_entity(*staff_id, r),
    {
        self.staff.get(staff_id)
    }

    /// Returns the staff entity with this id, for the caller to change. The
    /// company keeps it under the id it joined with, whatever the caller
    /// writes.
    pub fn get_mut(&mut self, staff_id: &u128) -> (r: Option<&mut V>)
        ensures
            old(self)@.wf() ==> final(self)@.wf(),
            match r {
                Some(v) => old(self)@.contains(*staff_id) && *v == old(self)@.staff[*staff_id]
                    && final(self)@ == old(self)@.with_entity(*staff_id, *final(v)),
                None => !old(self)@.contains(*staff_id) && final(self)@ == old(self)@,
            },
    {
        entry_mut(&mut self.staff, staff_id)
    }

    /// Returns the balance of a staff entity, if it has one.
    pub fn resource(&self, staff_id: &u128) -> (r: Option<&u64>)
        ensures
            self@.reads_balance(*staff_id, r),
    {
        self.resources.get(staff_id)
    }

    /// Returns the supervisor of a staff entity; `None` for the CEO and for
    /// an id that is not in the company.
    pub fn supervisor(&self, staff_id: &u128) -> (r: Option<&u128>)
        ensures
            self@.reads_supervisor(*staff_id, r),
    {
        self.supervisors.get(staff_id)
    }

    /// Returns the direct subordinates of a staff entity; `None` where it
    /// has never had any since it joined.
    pub fn subordinates(&self, staff_id: &u128) -> (r: Option<&HashSet<u128>>)
        ensures
            self@.reads_subordinates(
                *staff_id,
                match r {
                    Some(team) => Some(team@),
                    None => None,
                },
            ),
    {
        self.subordinates.get(staff_id)
    }

    /// Returns the sum of all balances.
    pub fn total_resources(&self) -> (sum: u64)
        requires
            self@.wf(),
        ensures
            sum == self@.total(),
    {
        let mut sum: u64 = 0;
        let ghost mut counted: Map<u128, u64> = Map::empty();
        for id in it: self.resources.keys()
            invariant
                self@.wf(),
                it.seq().no_duplicates(),
                // every balance comes by, and `counted` holds those that have
                forall|x: u128|
                    self.resources@.contains_key(x) ==> exists|j: int|
                        0 <= j < it.seq().len() && *#[trigger] it.seq()[j] == x,
                counted.dom().finite(),
                forall|k: u128| #[trigger]
                    counted.contains_key(k) ==> self.resources@.contains_key(k) && counted[k]
                        == self.resources@[k],
                forall|j: int|
                    0 <= j < it.seq().len() ==> (counted.contains_key(*#[trigger] it.seq()[j])
                        <==> j < it.index()),
                sum == total(counted),
        {
            let held = *self.resources.get(id).unwrap();
            proof {
                lemma_total_insert(counted, *id, held);
                assert(counted.remove(*id) =~= counted);
                lemma_total_of_part(counted.insert(*id, held), self.resources@);
                counted = counted.insert(*id, held);
            }
            sum = sum + held;
        }
        assert(counted =~= self.resources@);
        sum
    }

    /// Creates `amount` of resources on the balance of the CEO.
    ///
    /// The balances of a company together never exceed `u64::MAX`, so that
    /// no transfer between them can overflow; minting must keep within that
    /// bound. [`Company::total_resources`] tells how much is in use.
    pub fn mint(&mut self, amount: u64)
        requires
            old(self)@.wf(),
            old(self)@.total() + amount <= u64::MAX,
        ensures
            final(self)@.wf(),
            final(self)@ == old(self)@.minted(amount),
            final(self)@.resources[old(self)@.ceo] == old(self)@.resources[old(self)@.ceo] + amount,
            final(self)@.total() == old(self)@.total() + amount,
    {
        proof {
            lemma_minted(self@, amount);
        }
        let balance = match self.resources.get(&self.ceo_id) {
            Some(held) => *held + amount,
            None => amount,
        };
        self.resources.insert(self.ceo_id, balance);
    }

    /// Takes `amount` from the balance of a staff entity, or leaves the
    /// company as it is and says why.
    pub fn withdraw(&mut self, staff_id: &u128, amount: u64) -> (r: Result<(), Error<u128, u64>>)
        requires
            old(self)@.wf(),
        ensures
            final(self)@.wf(),
            match old(self)@.withdraw_error(*staff_id, amount) {
                Some(e) => r == Err::<(), Error<u128, u64>>(e) && final(self)@ == old(self)@,
                None => r is Ok && final(self)@ == old(self)@.withdrawn(*staff_id, amount)
                    && final(self)@.total() == old(self)@.total() - amount,
            },
    {
        let held = match self.resources.get(staff_id) {
            Some(held) => *held,
            None => {
                return Err(Error::StaffNotFound { staff_id: *staff_id });
            },
        };
        if held < amount {
            return Err(
                Error::InsufficientResourcesError {
                    staff_id: *staff_id,
                    required: amount,
                    available: held,
                },
            );
        }
        proof {
            lemma_withdrawn(self@, *staff_id, amount);
        }
        self.resources.insert(*staff_id, held - amount);
        Ok(())
    }

    /// Moves `amount` from the balance of `from` to that of `to`: it is
    /// taken first and added only once that has succeeded. Where it fails,
    /// no balance changes.
    pub fn transfer(&mut self, from: &u128, to: &u128, amount: u64) -> (r: Result<
        (),
        Error<u128, u64>,
    >)
        requires
            old(self)@.wf(),
        ensures
            final(self)@.wf(),
            final(self)@.total() == old(self)@.total(),
            final(self)@ == old(self)@.after(
                (Step::Transfer { from: *from, to: *to, amount: amount }),
            ),
            match old(self)@.transfer_error(*from, *to, amount) {
                Some(e) => r == Err::<(), Error<u128, u64>>(e) && final(self)@ == old(self)@,
                None => r is Ok && final(self)@ == old(self)@.transferred(*from, *to, amount),
            },
            old(self)@.contains(*from) && old(self)@.contains(*to)
                && amount > old(self)@.resources[*from]
                ==> r is Err && final(self)@.resources == old(self)@.resources,
    {
        if !self.staff.contains_key(from) {
            return Err(Error::StaffNotFound { staff_id: *from });
        }
        if !self.staff.contains_key(to) {
            return Err(Error::StaffNotFound { staff_id: *to });
        }
        match self.withdraw(from, amount) {
            Ok(()) => {},
            Err(e) => {
                return Err(e);
            },
        }
        proof {
            lemma_transferred(old(self)@, *from, *to, amount);
        }
        let balance = match self.resources.get(to) {
            Some(held) => *held + amount,
            None => amount,
        };
        self.resources.insert(*to, balance);
        Ok(())
    }

    /// Hires `staff` under `supervisor_id`, with the id that `staff`
    /// reports: see [`Company::hire_with_id`] for what follows from the id.
    ///
    /// An unknown supervisor is refused before the entity is asked for its
    /// id. Otherwise the entity joins under an id that was free, or the
    /// company stays as it is because the id was taken.
    pub fn hire(&mut self, staff: V, supervisor_id: &u128) -> (r: Result<u128, Error<u128, u64>>)
        requires
            old(self)@.wf(),
        ensures
            final(self)@.wf(),
            final(self)@.total() == old(self)@.total(),
            match r {
                Ok(id) => old(self)@.hire_error(id, *supervisor_id) is None
                    && final(self)@ == old(self)@.hired(id, staff, *supervisor_id),
                Err(e) => final(self)@ == old(self)@ && exists|id: u128|
                    old(self)@.hire_error(id, *supervisor_id) == Some(e),
            },
            !old(self)@.contains(*supervisor_id) ==> r == Err::<u128, Error<u128, u64>>(
                (Error::StaffNotFound { staff_id: *supervisor_id }),
            ),
    {
        match self.staff_exists(supervisor_id) {
            Ok(()) => {},
            Err(e) => {
                assert(self@.hire_error(0, *supervisor_id) == Some(e));
                return Err(e);
            },
        }
        let staff_id = staff.get_id();
        self.hire_with_id(staff_id, staff, supervisor_id)
    }

    /// Hires `staff` under `supervisor_id`, to be known by `staff_id`.
    ///
    /// The new entity starts with a tenth of its supervisor's balance,
    /// rounded down, and the supervisor's balance shrinks by as much.
    pub fn hire_with_id(&mut self, staff_id: u128, staff: V, supervisor_id: &u128) -> (r: Result<
        u128,
        Error<u128, u64>,
    >)
        requires
            old(self)@.wf(),
        ensures
            final(self)@.wf(),
            final(self)@.total() == old(self)@.total(),
            final(self)@ == old(self)@.after(
                (Step::Hire { id: staff_id, entity: staff, supervisor: *supervisor_id }),
            ),
            match old(self)@.hire_error(staff_id, *supervisor_id) {
                Some(e) => r == Err::<u128, Error<u128, u64>>(e) && final(self)@ == old(self)@,
                None => {
                    &&& r == Ok::<u128, Error<u128, u64>>(staff_id)
                    &&& final(self)@ == old(self)@.hired(staff_id, staff, *supervisor_id)
                    &&& final(self)@.resources[staff_id] == old(self)@.resources[*supervisor_id]
                        / 10
                    &&& final(self)@.resources[*supervisor_id]
                        == old(self)@.resources[*supervisor_id]
                        - old(self)@.resources[*supervisor_id] / 10
                },
            },
    {
        match self.staff_exists(supervisor_id) {
            Ok(()) => {},
            Err(e) => {
                return Err(e);
            },
        }
        if self.staff.contains_key(&staff_id) {
            return Err(Error::StaffAlreadyExists { staff_id });
        }
        let held = *self.resources.get(supervisor_id).unwrap();
        let amount = held / from_i16(10).unwrap();
        match self.withdraw(supervisor_id, amount) {
            Ok(()) => {},
            Err(e) => {
                return Err(e);
            },
        }
        self.staff.insert(staff_id, staff);
        self.supervisors.insert(staff_id, *supervisor_id);
        let mut team = match self.subordinates.remove(supervisor_id) {
            Some(team) => team,
            None => HashSet::new(),
        };
        team.insert(staff_id);
        self.subordinates.insert(*supervisor_id, team);
        self.resources.insert(staff_id, amount);
        proof {
            lemma_hired(old(self)@, staff_id, staff, *supervisor_id);
            assert(self@ =~~= old(self)@.hired(staff_id, staff, *supervisor_id));
        }
        Ok(staff_id)
    }

    /// Fires a staff entity and returns it. What it owned goes to its
    /// supervisor, and so do its direct subordinates: each of them has the
    /// former supervisor of the fired entity as its supervisor afterwards.
    /// The CEO cannot be fired.
    pub fn fire(&mut self, staff_id: &u128) -> (r: Result<V, Error<u128, u64>>)
        requires
            old(self)@.wf(),
        ensures
            final(self)@.wf(),
            final(self)@.total() == old(self)@.total(),
            final(self)@ == old(self)@.after((Step::Fire { id: *staff_id })),
            *staff_id == old(self)@.ceo ==> r == Err::<V, Error<u128, u64>>(Error::CannotFireCeo)
                && final(self)@ == old(self)@,
            match old(self)@.fire_error(*staff_id) {
                Some(e) => r == Err::<V, Error<u128, u64>>(e) && final(self)@ == old(self)@,
                None => {
                    let supervisor = old(self)@.supervisors[*staff_id];
                    &&& r == Ok::<V, Error<u128, u64>>(old(self)@.staff[*staff_id])
                    &&& final(self)@ == old(self)@.fired(*staff_id)
                    &&& final(self)@.resources[supervisor] == old(self)@.resources[supervisor]
                        + old(self)@.resources[*staff_id]
                    &&& final(self)@.subordinates[supervisor]
                        == old(self)@.subordinates[supervisor].remove(*staff_id).union(
                        old(self)@.subordinate_set(*staff_id),
                    )
                    &&& forall|id: u128|
                        old(self)@.subordinate_set(*staff_id).contains(id)
                            ==> final(self)@.supervisors[id] == supervisor
                },
            },
    {
        match self.staff_exists(staff_id) {
            Ok(()) => {},
            Err(e) => {
                return Err(e);
            },
        }
        if *staff_id == self.ceo_id {
            return Err(Error::CannotFireCeo);
        }
        proof {
            lemma_fired(self@, *staff_id);
        }
        let supervisor_id = *self.supervisors.get(staff_id).unwrap();
        let held = *self.resources.get(staff_id).unwrap();
        match self.transfer(staff_id, &supervisor_id, held) {
            Ok(()) => {},
            Err(e) => {
                return Err(e);
            },
        }
        self.resources.remove(staff_id);
        self.supervisors.remove(staff_id);
        let mut team = self.subordinates.remove(&supervisor_id).unwrap();
        team.remove(staff_id);
        match self.subordinates.remove(staff_id) {
            Some(orphans) => {
                reparent(&mut self.supervisors, &mut team, &orphans, supervisor_id);
            },
            None => {},
        }
        self.subordinates.insert(supervisor_id, team);
        let fired = self.staff.remove(staff_id).unwrap();
        assert(self@ =~~= old(self)@.fired(*staff_id));
        Ok(fired)
    }

    /// Moves a staff entity under another supervisor. Refused where the
    /// entity is the new supervisor or stands above it, the CEO included:
    /// the move would close a cycle.
    pub fn change_supervisor(&mut self, staff_id: &u128, supervisor_id: &u128) -> (r: Result<
        (),
        Error<u128, u64>,
    >)
        requires
            old(self)@.wf(),
        ensures
            final(self)@.wf(),
            final(self)@.total() == old(self)@.total(),
            final(self)@ == old(self)@.after(
                (Step::Move { id: *staff_id, supervisor: *supervisor_id }),
            ),
            match old(self)@.move_error(*staff_id, *supervisor_id) {
                Some(e) => r == Err::<(), Error<u128, u64>>(e) && final(self)@ == old(self)@,
                None => r is Ok && final(self)@ == old(self)@.moved(*staff_id, *supervisor_id),
            },
    {
        match self.staff_exists(staff_id) {
            Ok(()) => {},
            Err(e) => {
                return Err(e);
            },
        }
        match self.staff_exists(supervisor_id) {
            Ok(()) => {},
            Err(e) => {
                return Err(e);
            },
        }
        if self.stands_above(staff_id, supervisor_id) {
            return Err(
                Error::HierarchyConflict { staff_id: *staff_id, supervisor_id: *supervisor_id },
            );
        }
        proof {
            lemma_moved(self@, *staff_id, *supervisor_id);
        }
        let former = *self.supervisors.get(staff_id).unwrap();
        let mut left = self.subordinates.remove(&former).unwrap();
        left.remove(staff_id);
        self.subordinates.insert(former, left);
        let mut joined = match self.subordinates.remove(supervisor_id) {
            Some(team) => team,
            None => HashSet::new(),
        };
        joined.insert(*staff_id);
        self.subordinates.insert(*supervisor_id, joined);
        self.supervisors.insert(*staff_id, *supervisor_id);
        assert(self@ =~~= old(self)@.moved(*staff_id, *supervisor_id));
        Ok(())
    }

    /// Walks from `staff_id` up to the CEO and says whether it meets
    /// `above` on the way, `staff_id` itself included.
    fn stands_above(&self, above: &u128, staff_id: &u128) -> (found: bool)
        requires
            self@.wf(),
            self@.contains(*staff_id),
        ensures
            found == self@.in_chain(*above, *staff_id),
    {
        let ghost rank = choose|rank: spec_fn(u128) -> nat| ranked(self@.supervisors, rank);
        let ghost mut steps: nat = 0;
        let mut current = *staff_id;
        loop
            invariant
                self@.wf(),
                ranked(self@.supervisors, rank),
                current == self@.ancestor(*staff_id, steps),
                forall|n: nat| n < steps ==> self@.ancestor(*staff_id, n) != *above,
            decreases rank(current),
        {
            if current == *above {
                return true;
            }
            match self.supervisors.get(&current) {
                Some(next) => {
                    proof {
                        steps = steps + 1;
                    }
                    current = *next;
                },
                None => {
                    assert forall|n: nat| self@.ancestor(*staff_id, n) != *above by {
                        if n >= steps {
                            lemma_ancestor_rests(self@, *staff_id, steps, n);
                        }
                    }
                    return false;
                },
            }
        }
    }

    /// Says whether a staff entity with this id is in the company.
    fn staff_exists(&self, staff_id: &u128) -> (r: Result<(), Error<u128, u64>>)
        ensures
            self@.contains(*staff_id) ==> r is Ok,
            !self@.contains(*staff_id) ==> r == Err::<(), Error<u128, u64>>(
                (Error::StaffNotFound { staff_id: *staff_id }),
            ),
    {
        match self.get(staff_id) {
            Some(_) => Ok(()),
            None => Err(Error::StaffNotFound { staff_id: *staff_id }),
        }
    }
}

/// Calls `HashMap::get_mut` of the standard library. Trusted: it yields a
/// mutable reference to the value stored under `id`, or `None` where there
/// is none; what the caller writes through the reference is what the map
/// holds under `id` afterwards, and nothing else in the map changes.
#[verifier::external_body]
fn entry_mut<'a, V>(entries: &'a mut HashMap<u128, V>, id: &u128) -> (r: Option<&'a mut V>)
    ensures
        match r {
            Some(v) => old(entries)@.contains_key(*id) && *v == old(entries)@[*id]
                && final(entries)@ == old(entries)@.insert(*id, *final(v)),
            None => !old(entries)@.contains_key(*id) && final(entries)@ == old(entries)@,
        },
{
    entries.get_mut(id)
}

/// Puts every member of `orphans` under `supervisor_id`: into `team`, and
/// in `supervisors`.
fn reparent(
    supervisors: &mut HashMap<u128, u128>,
    team: &mut HashSet<u128>,
    orphans: &HashSet<u128>,
    supervisor_id: u128,
)
    ensures
        final(team)@ == old(team)@.union(orphans@),
        forall|k: u128|
            #![trigger final(supervisors)@.contains_key(k)]
            #![trigger old(supervisors)@.contains_key(k)]
            #![trigger orphans@.contains(k)]
            final(supervisors)@.contains_key(k) <==> old(supervisors)@.contains_key(k)
                || orphans@.contains(k),
        forall|k: u128| #[trigger]
            final(supervisors)@.contains_key(k) ==> final(supervisors)@[k] == if orphans@.contains(
                k,
            ) {
                supervisor_id
            } else {
                old(supervisors)@[k]
            },
{
    let ghost team0 = team@;
    let ghost supervisors0 = supervisors@;
    for id in it: orphans.iter()
        invariant
            // every orphan comes by
            forall|x: u128|
                orphans@.contains(x) ==> exists|j: int|
                    0 <= j < it.seq().len() && *#[trigger] it.seq()[j] == x,
            // `team` holds what it held, and the orphans that have come by
            forall|x: u128| team0.contains(x) ==> team@.contains(x),
            forall|x: u128| team@.contains(x) ==> team0.contains(x) || orphans@.contains(x),
            forall|j: int| 0 <= j < it.index() ==> team@.contains(*#[trigger] it.seq()[j]),
            // `supervisors` has changed for the orphans that have come by only
            forall|k: u128| supervisors0.contains_key(k) ==> supervisors@.contains_key(k),
            forall|k: u128|
                supervisors@.contains_key(k) ==> supervisors0.contains_key(k) || orphans@.contains(
                    k,
                ),
            forall|k: u128|
                supervisors@.contains_key(k) && !orphans@.contains(k) ==> supervisors@[k]
                    == supervisors0[k],
            forall|j: int|
                0 <= j < it.index() ==> supervisors@.contains_key(*#[trigger] it.seq()[j])
                    && supervisors@[*it.seq()[j]] == supervisor_id,
    {
        supervisors.insert(*id, supervisor_id);
        team.insert(*id);
    }
}

} // verus!
