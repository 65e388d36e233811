//! Current state: at most one record per robot.

use vstd::prelude::*;
use crate::records::Robot;

verus! {

/// Keyed store of the latest distance of every robot that was ever mutated.
///
/// Its view is the map from robot identifier to current distance. A robot
/// that was never mutated has no entry.
pub struct CurrentStateStore {
    records: Vec<Robot>,
}

impl View for CurrentStateStore {
    type V = Map<Seq<char>, u64>;

    closed spec fn view(&self) -> Map<Seq<char>, u64> {
        Map::new(
            |robot_id: Seq<char>| exists|i: int| self.holds(robot_id, i),
            |robot_id: Seq<char>| self.records[self.index_of(robot_id)].distance,
        )
    }
}

impl CurrentStateStore {
    /// Record `i` belongs to `robot_id`.
    closed spec fn holds(self, robot_id: Seq<char>, i: int) -> bool {
        0 <= i < self.records.len() && self.records[i].robot_id@ == robot_id
    }

    /// Record `i` is the first that belongs to `robot_id`.
    closed spec fn holds_first(self, robot_id: Seq<char>, i: int) -> bool {
        self.holds(robot_id, i) && forall|k: int| 0 <= k < i ==> !self.holds(robot_id, k)
    }

    /// Position of the record that answers for `robot_id`, where it has one.
    closed spec fn index_of(self, robot_id: Seq<char>) -> int {
        choose|i: int| self.holds_first(robot_id, i)
    }

    /// No robot has more than one record.
    pub closed spec fn wf(self) -> bool {
        forall|i: int, j: int|
            0 <= i < j < self.records.len() ==> self.records[i].robot_id@
                != self.records[j].robot_id@
    }

    /// The view maps a robot to the distance of the first record that
    /// belongs to it.
    proof fn lemma_index_of(self, robot_id: Seq<char>, i: int)
        requires
            self.holds_first(robot_id, i),
        ensures
            self.index_of(robot_id) == i,
            self@.contains_key(robot_id),
            self@[robot_id] == self.records[i].distance,
    {
        let k = self.index_of(robot_id);
        assert(self.holds_first(robot_id, k));
        if k < i {
            assert(!self.holds(robot_id, k));
        } else if i < k {
            assert(!self.holds(robot_id, i));
        }
    }

    /// A robot with a record at or before position `i` has a first record.
    proof fn lemma_first_exists(self, robot_id: Seq<char>, i: int) -> (first: int)
        requires
            self.holds(robot_id, i),
        ensures
            self.holds_first(robot_id, first),
        decreases i,
    {
        if exists|k: int| 0 <= k < i && self.holds(robot_id, k) {
            let k = choose|k: int| 0 <= k < i && self.holds(robot_id, k);
            self.lemma_first_exists(robot_id, k)
        } else {
            i
        }
    }

    /// A store that differs from `before` only at position `i`, where it now
    /// gives `distance` in the first record of `robot_id` and `before` had
    /// nothing or that robot's first record, maps `robot_id` to `distance`
    /// and every other robot as before, and is well formed if `before` was.
    proof fn lemma_upsert(self, before: CurrentStateStore, robot_id: Seq<char>, distance: u64, i: int)
        requires
            self.holds_first(robot_id, i),
            self.records[i].distance == distance,
            self.records.len() == before.records.len() || (self.records.len()
                == before.records.len() + 1 && i == before.records.len()),
            forall|k: int|
                0 <= k < before.records.len() && k != i ==> self.records[k] == before.records[k],
            i < before.records.len() ==> before.holds(robot_id, i),
        ensures
            self@ == before@.insert(robot_id, distance),
            before.wf() ==> self.wf(),
    {
        assert forall|id: Seq<char>, k: int| id != robot_id implies self.holds(id, k) == before.holds(
            id,
            k,
        ) by {}
        self.lemma_index_of(robot_id, i);
        assert forall|id: Seq<char>| id != robot_id && #[trigger] self@.contains_key(
            id,
        ) implies before@.contains_key(id) && self@[id] == before@[id] by {
            let k = self.index_of(id);
            let some = choose|k: int| self.holds(id, k);
            let first = self.lemma_first_exists(id, some);
            self.lemma_index_of(id, first);
            assert(before.holds_first(id, k));
            before.lemma_index_of(id, k);
        }
        assert forall|id: Seq<char>| id != robot_id && #[trigger] before@.contains_key(
            id,
        ) implies self@.contains_key(id) by {
            let k = choose|k: int| before.holds(id, k);
            assert(self.holds(id, k));
        }
        assert(self@ =~= before@.insert(robot_id, distance));
        if before.wf() {
            assert forall|a: int, b: int| 0 <= a < b < self.records.len() implies self.records[a].robot_id@
                != self.records[b].robot_id@ by {
                if a == i || b == i {
                    let other = if a == i {
                        b
                    } else {
                        a
                    };
                    if self.records[other].robot_id@ == robot_id {
                        assert(self.holds(robot_id, other));
                        assert(before.holds(robot_id, other));
                    }
                }
            }
        }
    }

    /// The store without any record.
    pub fn new() -> (store: CurrentStateStore)
        ensures
            store.wf(),
            store@ == Map::<Seq<char>, u64>::empty(),
    {
        let store = CurrentStateStore { records: Vec::new() };
        assert(store@ =~= Map::<Seq<char>, u64>::empty());
        store
    }

    /// Position of the first record of `robot_id`, or `None` where the
    /// robot has no record.
    fn position(&self, robot_id: &String) -> (found: Option<usize>)
        ensures
            match found {
                Some(i) => self.holds_first(robot_id@, i as int),
                None => forall|k: int| !self.holds(robot_id@, k),
            },
    {
        let mut i: usize = 0;
        while i < self.records.len()
            invariant
                i <= self.records.len(),
                forall|k: int| 0 <= k < i ==> !self.holds(robot_id@, k),
            decreases self.records.len() - i,
        {
            if self.records[i].robot_id == *robot_id {
                return Some(i);
            }
            i += 1;
        }
        None
    }

    /// The current distance of `robot_id`, or `None` where the robot has no
    /// record.
    pub fn get(&self, robot_id: &String) -> (found: Option<u64>)
        ensures
            found == (if self@.contains_key(robot_id@) {
                Some(self@[robot_id@])
            } else {
                None::<u64>
            }),
    {
        match self.position(robot_id) {
            Some(i) => {
                proof {
                    self.lemma_index_of(robot_id@, i as int);
                }
                Some(self.records[i].distance)
            },
            None => None,
        }
    }

    /// Gives `robot_id` the distance `distance`: replaces its record where
    /// it has one, creates the record where it has none.
    pub fn set(&mut self, robot_id: String, distance: u64)
        ensures
            final(self)@ == old(self)@.insert(robot_id@, distance),
            old(self).wf() ==> final(self).wf(),
    {
        let ghost before = *self;
        match self.position(&robot_id) {
            Some(i) => {
                self.records.set(i, Robot { robot_id, distance });
                proof {
                    assert forall|k: int| 0 <= k < i implies !self.holds(robot_id@, k) by {
                        assert(!before.holds(robot_id@, k));
                    }
                    self.lemma_upsert(before, robot_id@, distance, i as int);
                }
            },
            None => {
                self.records.push(Robot { robot_id, distance });
                proof {
                    assert forall|k: int| 0 <= k < before.records.len() implies !self.holds(
                        robot_id@,
                        k,
                    ) by {
                        assert(!before.holds(robot_id@, k));
                    }
                    self.lemma_upsert(before, robot_id@, distance, before.records.len() as int);
                }
            },
        }
    }
}

} // verus!
