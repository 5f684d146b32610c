//! The mathematical model of a company: who is in it, who supervises whom,
//! and what each entity owns. Every operation of a company is stated as a
//! function from one ledger to the next.

use vstd::prelude::*;
use crate::balances::total;
use crate::errors::Error;

verus! {

/// The state of a company as plain mathematical values.
#[verifier::ext_equal]
pub struct Ledger<V> {
    /// The root of the supervision tree.
    pub ceo: u128,
    /// The entities, by id.
    pub staff: Map<u128, V>,
    /// The balance of each entity.
    pub resources: Map<u128, u64>,
    /// The supervisor of each entity but the CEO.
    pub supervisors: Map<u128, u128>,
    /// The direct subordinates of each entity that has ever supervised
    /// anyone since it joined.
    pub subordinates: Map<u128, Set<u128>>,
}

/// `rank` grows strictly along every supervision edge, from supervisor to
/// subordinate.
pub open spec fn ranked(supervisors: Map<u128, u128>, rank: spec_fn(u128) -> nat) -> bool {
    forall|id: u128| #[trigger]
        supervisors.contains_key(id) ==> rank(supervisors[id]) < rank(id)
}

/// No entity is above itself: some ranking grows along every edge.
pub open spec fn acyclic(supervisors: Map<u128, u128>) -> bool {
    exists|rank: spec_fn(u128) -> nat| ranked(supervisors, rank)
}

/// One operation that moves staff or resources inside a company, and
/// neither creates nor destroys resources.
pub enum Step<V> {
    /// `entity` is hired under `supervisor`, to be known by `id`.
    Hire { id: u128, entity: V, supervisor: u128 },
    /// `id` is fired.
    Fire { id: u128 },
    /// `amount` is transferred from `from` to `to`.
    Transfer { from: u128, to: u128, amount: u64 },
    /// `id` changes to `supervisor`.
    Move { id: u128, supervisor: u128 },
}

impl<V> Ledger<V> {
    /// Whether an entity with this id is in the company.
    pub open spec fn contains(self, id: u128) -> bool {
        self.staff.contains_key(id)
    }

    /// The sum of all balances.
    pub open spec fn total(self) -> nat {
        total(self.resources)
    }

    /// The direct subordinates of `id`; none where it has no entry.
    pub open spec fn subordinate_set(self, id: u128) -> Set<u128> {
        if self.subordinates.contains_key(id) {
            self.subordinates[id]
        } else {
            Set::empty()
        }
    }

    /// The entity reached from `id` after `steps` moves to the supervisor;
    /// an entity without supervisor stays where it is.
    pub open spec fn ancestor(self, id: u128, steps: nat) -> u128
        decreases steps,
    {
        if steps == 0 {
            id
        } else {
            let below = self.ancestor(id, (steps - 1) as nat);
            if self.supervisors.contains_key(below) {
                self.supervisors[below]
            } else {
                below
            }
        }
    }

    /// Whether `above` is `id` itself or stands above it in the hierarchy.
    pub open spec fn in_chain(self, above: u128, id: u128) -> bool {
        exists|steps: nat| self.ancestor(id, steps) == above
    }

    /// The invariant of a company.
    ///
    /// The CEO is a member and the only one without a supervisor; every
    /// supervisor is a member; the two supervision maps are inverses of each
    /// other; nobody is above themselves; every member has a balance and
    /// nobody else has; the balances together fit the resource type.
    pub open spec fn wf(self) -> bool {
        &&& self.staff.dom().finite()
        &&& self.resources.dom().finite()
        &&& self.staff.contains_key(self.ceo)
        &&& forall|id: u128|
            #![trigger self.resources.contains_key(id)]
            self.resources.contains_key(id) <==> self.staff.contains_key(id)
        &&& forall|id: u128|
            #![trigger self.supervisors.contains_key(id)]
            self.supervisors.contains_key(id) <==> self.staff.contains_key(id) && id != self.ceo
        &&& forall|id: u128| #[trigger]
            self.supervisors.contains_key(id) ==> {
                &&& self.staff.contains_key(self.supervisors[id])
                &&& self.subordinates.contains_key(self.supervisors[id])
                &&& self.subordinates[self.supervisors[id]].contains(id)
            }
        &&& forall|s: u128| #[trigger]
            self.subordinates.contains_key(s) ==> self.staff.contains_key(s)
                && self.subordinates[s].finite()
        &&& forall|s: u128, id: u128|
            self.subordinates.contains_key(s) && #[trigger] self.subordinates[s].contains(id)
                ==> self.supervisors.contains_key(id) && self.supervisors[id] == s
        &&& acyclic(self.supervisors)
        &&& total(self.resources) <= u64::MAX
    }

    /// Whether `answer` is what reading the entity `id` gives: the entity
    /// where `id` is a member, nothing where it is not.
    pub open spec fn reads_entity(self, id: u128, answer: Option<&V>) -> bool {
        match answer {
            Some(entity) => self.staff.contains_key(id) && *entity == self.staff[id],
            None => !self.staff.contains_key(id),
        }
    }

    /// Whether `answer` is what reading the balance of `id` gives.
    pub open spec fn reads_balance(self, id: u128, answer: Option<&u64>) -> bool {
        match answer {
            Some(held) => self.resources.contains_key(id) && *held == self.resources[id],
            None => !self.resources.contains_key(id),
        }
    }

    /// Whether `answer` is what reading the supervisor of `id` gives.
    pub open spec fn reads_supervisor(self, id: u128, answer: Option<&u128>) -> bool {
        match answer {
            Some(above) => self.supervisors.contains_key(id) && *above == self.supervisors[id],
            None => !self.supervisors.contains_key(id),
        }
    }

    /// Whether `answer` is what reading the direct subordinates of `id`
    /// gives, as a set.
    pub open spec fn reads_subordinates(self, id: u128, answer: Option<Set<u128>>) -> bool {
        match answer {
            Some(team) => self.subordinates.contains_key(id) && team == self.subordinates[id],
            None => !self.subordinates.contains_key(id),
        }
    }

    /// Why nothing can be withdrawn: the id is unknown, or it owns less
    /// than `amount`. `None` where the withdrawal goes through.
    pub open spec fn withdraw_error(self, id: u128, amount: u64) -> Option<Error<u128, u64>> {
        if !self.contains(id) {
            Some(Error::StaffNotFound { staff_id: id })
        } else if self.resources[id] < amount {
            Some(
                Error::InsufficientResourcesError {
                    staff_id: id,
                    required: amount,
                    available: self.resources[id],
                },
            )
        } else {
            None
        }
    }

    /// Why nothing can be transferred: the sender is unknown, else the
    /// receiver is unknown, else the sender cannot afford it.
    pub open spec fn transfer_error(self, from: u128, to: u128, amount: u64) -> Option<
        Error<u128, u64>,
    > {
        if !self.contains(from) {
            Some(Error::StaffNotFound { staff_id: from })
        } else if !self.contains(to) {
            Some(Error::StaffNotFound { staff_id: to })
        } else {
            self.withdraw_error(from, amount)
        }
    }

    /// Why `id` cannot be hired under `supervisor`: the supervisor is
    /// unknown, else the id is taken.
    pub open spec fn hire_error(self, id: u128, supervisor: u128) -> Option<Error<u128, u64>> {
        if !self.contains(supervisor) {
            Some(Error::StaffNotFound { staff_id: supervisor })
        } else if self.contains(id) {
            Some(Error::StaffAlreadyExists { staff_id: id })
        } else {
            None
        }
    }

    /// Why `id` cannot be fired: it is unknown, else it is the CEO.
    pub open spec fn fire_error(self, id: u128) -> Option<Error<u128, u64>> {
        if !self.contains(id) {
            Some(Error::StaffNotFound { staff_id: id })
        } else if id == self.ceo {
            Some(Error::CannotFireCeo)
        } else {
            None
        }
    }

    /// Why `id` cannot move under `supervisor`: it is unknown, else the
    /// supervisor is unknown, else `id` is the supervisor or stands above
    /// it, so that the move would close a cycle.
    pub open spec fn move_error(self, id: u128, supervisor: u128) -> Option<Error<u128, u64>> {
        if !self.contains(id) {
            Some(Error::StaffNotFound { staff_id: id })
        } else if !self.contains(supervisor) {
            Some(Error::StaffNotFound { staff_id: supervisor })
        } else if self.in_chain(id, supervisor) {
            Some(Error::HierarchyConflict { staff_id: id, supervisor_id: supervisor })
        } else {
            None
        }
    }

    /// The ledger of a company that has just been founded by `ceo` under `id`.
    pub open spec fn founded(id: u128, ceo: V) -> Self {
        Ledger {
            ceo: id,
            staff: Map::empty().insert(id, ceo),
            resources: Map::empty().insert(id, 0u64),
            supervisors: Map::empty(),
            subordinates: Map::empty(),
        }
    }

    /// The same ledger with `entity` in the place of the member `id`.
    pub open spec fn with_entity(self, id: u128, entity: V) -> Self {
        Ledger { staff: self.staff.insert(id, entity), ..self }
    }

    /// The same ledger with the balance of `id` set to `amount`.
    pub open spec fn with_balance(self, id: u128, amount: u64) -> Self {
        Ledger { resources: self.resources.insert(id, amount), ..self }
    }

    /// After `amount` was created on the balance of the CEO.
    pub open spec fn minted(self, amount: u64) -> Self {
        self.with_balance(self.ceo, (self.resources[self.ceo] + amount) as u64)
    }

    /// After `amount` was taken from the balance of `id`.
    pub open spec fn withdrawn(self, id: u128, amount: u64) -> Self {
        self.with_balance(id, (self.resources[id] - amount) as u64)
    }

    /// After `amount` was added to the balance of `id`.
    pub open spec fn credited(self, id: u128, amount: u64) -> Self {
        self.with_balance(id, (self.resources[id] + amount) as u64)
    }

    /// After `amount` moved from `from` to `to`: taken first, then added.
    pub open spec fn transferred(self, from: u128, to: u128, amount: u64) -> Self {
        self.withdrawn(from, amount).credited(to, amount)
    }

    /// What a new subordinate of `supervisor` starts with: a tenth of the
    /// supervisor's balance, rounded down.
    pub open spec fn seed(self, supervisor: u128) -> u64 {
        self.resources[supervisor] / 10
    }

    /// After `entity` joined under `id` as a subordinate of `supervisor`,
    /// with the seed moved from the supervisor's balance to its own.
    pub open spec fn hired(self, id: u128, entity: V, supervisor: u128) -> Self {
        let seed = self.seed(supervisor);
        Ledger {
            ceo: self.ceo,
            staff: self.staff.insert(id, entity),
            resources: self.resources.insert(
                supervisor,
                (self.resources[supervisor] - seed) as u64,
            ).insert(id, seed),
            supervisors: self.supervisors.insert(id, supervisor),
            subordinates: self.subordinates.insert(
                supervisor,
                self.subordinate_set(supervisor).insert(id),
            ),
        }
    }

    /// After `id` left: its balance went to its supervisor, and so did its
    /// direct subordinates.
    pub open spec fn fired(self, id: u128) -> Self {
        let supervisor = self.supervisors[id];
        Ledger {
            ceo: self.ceo,
            staff: self.staff.remove(id),
            resources: self.resources.remove(id).insert(
                supervisor,
                (self.resources[supervisor] + self.resources[id]) as u64,
            ),
            supervisors: Map::new(
                |k: u128| self.supervisors.contains_key(k) && k != id,
                |k: u128|
                    if self.supervisors[k] == id {
                        supervisor
                    } else {
                        self.supervisors[k]
                    },
            ),
            subordinates: self.subordinates.remove(id).insert(
                supervisor,
                self.subordinate_set(supervisor).remove(id).union(self.subordinate_set(id)),
            ),
        }
    }

    /// After `id` moved from its supervisor to `supervisor`.
    pub open spec fn moved(self, id: u128, supervisor: u128) -> Self {
        let former = self.supervisors[id];
        let detached = self.subordinates.insert(former, self.subordinate_set(former).remove(id));
        let joined = if detached.contains_key(supervisor) {
            detached[supervisor]
        } else {
            Set::empty()
        };
        Ledger {
            supervisors: self.supervisors.insert(id, supervisor),
            subordinates: detached.insert(supervisor, joined.insert(id)),
            ..self
        }
    }

    /// The ledger after one step: changed as the step says where the step
    /// is accepted, and as it was where the step is refused.
    pub open spec fn after(self, step: Step<V>) -> Self {
        match step {
            Step::Hire { id, entity, supervisor } => if self.hire_error(id, supervisor) is None {
                self.hired(id, entity, supervisor)
            } else {
                self
            },
            Step::Fire { id } => if self.fire_error(id) is None {
                self.fired(id)
            } else {
                self
            },
            Step::Transfer { from, to, amount } => if self.transfer_error(from, to, amount)
                is None {
                self.transferred(from, to, amount)
            } else {
                self
            },
            Step::Move { id, supervisor } => if self.move_error(id, supervisor) is None {
                self.moved(id, supervisor)
            } else {
                self
            },
        }
    }

    /// The ledger after a sequence of steps, taken from first to last.
    pub open spec fn after_all(self, steps: Seq<Step<V>>) -> Self
        decreases steps.len(),
    {
        if steps.len() == 0 {
            self
        } else {
            self.after_all(steps.drop_last()).after(steps.last())
        }
    }
}

} // verus!
