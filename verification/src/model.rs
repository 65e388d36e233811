//! The tracker as a mathematical state, and what each operation does to it.

use vstd::prelude::*;
use crate::history::is_record_of;
use crate::query::distance_as_of;
use crate::records::HistoryEntry;

verus! {

/// Why a mutation was refused.
#[derive(Clone, Copy, Debug, PartialEq, Eq, Structural)]
pub enum TrackingError {
    /// The robot identifier is empty.
    ValidationError,
    /// The incremented distance would not fit in 64 bits.
    ArithmeticOverflow,
}

/// A robot identifier is acceptable when it is not empty.
pub open spec fn valid_robot_id(robot_id: Seq<char>) -> bool {
    robot_id.len() > 0
}

/// No later record of `history` belongs to the robot of record `i`.
pub open spec fn is_latest_of_its_robot(history: Seq<HistoryEntry>, i: int) -> bool {
    &&& 0 <= i < history.len()
    &&& forall|j: int| i < j < history.len() ==> !is_record_of(history, history[i].robot_id, j)
}

/// The records of `robot_id` carry timestamps that never decrease in
/// insertion order.
pub open spec fn is_chronological_for(history: Seq<HistoryEntry>, robot_id: Seq<char>) -> bool {
    forall|i: int, j: int|
        i < j && is_record_of(history, robot_id, i) && is_record_of(history, robot_id, j)
            ==> history[i].timestamp <= history[j].timestamp
}

/// Current distances and history, as mathematical values.
pub struct TrackingState {
    /// Current distance of every robot that has one.
    pub current: Map<Seq<char>, u64>,
    /// All history records, oldest first.
    pub history: Seq<HistoryEntry>,
}

impl TrackingState {
    /// The state before any mutation.
    pub open spec fn empty() -> TrackingState {
        TrackingState { current: Map::empty(), history: Seq::empty() }
    }

    /// The current distance of `robot_id`; zero for a robot without record.
    pub open spec fn current_distance(self, robot_id: Seq<char>) -> u64 {
        if self.current.contains_key(robot_id) {
            self.current[robot_id]
        } else {
            0
        }
    }

    /// The distance `robot_id` had at the instant `target`.
    pub open spec fn distance_as_of(self, robot_id: Seq<char>, target: int) -> u64 {
        distance_as_of(self.history, robot_id, target)
    }

    /// The state after `robot_id` was given `distance` at `now`: the current
    /// record is replaced and one history record is added, as one step.
    pub open spec fn record(self, robot_id: Seq<char>, distance: u64, now: int) -> TrackingState {
        TrackingState {
            current: self.current.insert(robot_id, distance),
            history: self.history.push(HistoryEntry { robot_id, timestamp: now, distance }),
        }
    }

    /// Outcome of setting the distance of `robot_id` to `distance` at `now`.
    pub open spec fn set_distance(self, robot_id: Seq<char>, distance: u64, now: int) -> Result<
        TrackingState,
        TrackingError,
    > {
        if !valid_robot_id(robot_id) {
            Err(TrackingError::ValidationError)
        } else {
            Ok(self.record(robot_id, distance, now))
        }
    }

    /// Outcome of adding `increment` to the distance of `robot_id` at `now`.
    pub open spec fn increment_distance(
        self,
        robot_id: Seq<char>,
        increment: u64,
        now: int,
    ) -> Result<TrackingState, TrackingError> {
        if !valid_robot_id(robot_id) {
            Err(TrackingError::ValidationError)
        } else if self.current_distance(robot_id) + increment > u64::MAX {
            Err(TrackingError::ArithmeticOverflow)
        } else {
            Ok(
                self.record(
                    robot_id,
                    (self.current_distance(robot_id) + increment) as u64,
                    now,
                ),
            )
        }
    }

    /// Current state and history agree: a robot has a current record exactly
    /// when it has history, the current distance is that of the robot's
    /// latest history record, and no record carries an empty identifier.
    pub open spec fn consistent(self) -> bool {
        &&& forall|robot_id: Seq<char>| #[trigger]
            self.current.contains_key(robot_id) ==> exists|i: int|
                is_record_of(self.history, robot_id, i)
        &&& forall|i: int| #[trigger]
            is_latest_of_its_robot(self.history, i) ==> {
                &&& self.current.contains_key(self.history[i].robot_id)
                &&& self.current[self.history[i].robot_id] == self.history[i].distance
            }
        &&& forall|i: int|
            0 <= i < self.history.len() ==> valid_robot_id(#[trigger] self.history[i].robot_id)
    }
}

/// One request to the tracker, with the instant at which a mutation is
/// served.
pub enum Operation {
    /// Set the distance of a robot.
    SetDistance { robot_id: Seq<char>, distance: u64, now: int },
    /// Add to the distance of a robot.
    IncrementDistance { robot_id: Seq<char>, increment: u64, now: int },
    /// Read the current distance of a robot.
    CurrentDistance { robot_id: Seq<char> },
    /// Read the distance a robot had at an instant.
    DistanceAsOf { robot_id: Seq<char>, target: int },
    /// Produce the status line of a robot.
    Describe { robot_id: Seq<char> },
}

impl Operation {
    /// The operation only reads.
    pub open spec fn is_read(self) -> bool {
        !(self is SetDistance) && !(self is IncrementDistance)
    }
}

impl TrackingState {
    /// The state after `operation` was served; a refused mutation and every
    /// read leave the state as it was.
    pub open spec fn apply(self, operation: Operation) -> TrackingState {
        match operation {
            Operation::SetDistance { robot_id, distance, now } => match self.set_distance(
                robot_id,
                distance,
                now,
            ) {
                Ok(next) => next,
                Err(_) => self,
            },
            Operation::IncrementDistance {
                robot_id,
                increment,
                now,
            } => match self.increment_distance(robot_id, increment, now) {
                Ok(next) => next,
                Err(_) => self,
            },
            _ => self,
        }
    }

    /// The state after `operations` were served one after the other.
    pub open spec fn apply_all(self, operations: Seq<Operation>) -> TrackingState
        decreases operations.len(),
    {
        if operations.len() == 0 {
            self
        } else {
            self.apply_all(operations.drop_last()).apply(operations.last())
        }
    }
}

} // verus!
