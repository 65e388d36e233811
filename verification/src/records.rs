//! The two kinds of record the tracker keeps.

use vstd::prelude::*;
use crate::timestamp::Timestamp;

verus! {

/// The latest accepted distance of one robot.
#[derive(Debug)]
pub struct Robot {
    /// Identifier of the robot.
    pub robot_id: String,
    /// Distance travelled, in units.
    pub distance: u64,
}

/// The distance a robot was given by one mutation, and when.
#[derive(Debug)]
pub struct RobotHistory {
    /// Identifier of the robot the mutation was addressed to.
    pub robot_id: String,
    /// Instant of the mutation.
    pub timestamp: Timestamp,
    /// Distance the mutation produced.
    pub distance: u64,
}

/// Mathematical content of a [`RobotHistory`] record.
pub struct HistoryEntry {
    /// Characters of the robot identifier.
    pub robot_id: Seq<char>,
    /// Instant of the mutation, in microseconds since the Unix epoch.
    pub timestamp: int,
    /// Distance the mutation produced.
    pub distance: u64,
}

impl View for RobotHistory {
    type V = HistoryEntry;

    open spec fn view(&self) -> HistoryEntry {
        HistoryEntry {
            robot_id: self.robot_id@,
            timestamp: self.timestamp@,
            distance: self.distance,
        }
    }
}

impl Clone for Robot {
    fn clone(&self) -> (copy: Robot)
        ensures
            copy == *self,
    {
        Robot { robot_id: self.robot_id.clone(), distance: self.distance }
    }
}

impl Clone for RobotHistory {
    fn clone(&self) -> (copy: RobotHistory)
        ensures
            copy == *self,
    {
        RobotHistory {
            robot_id: self.robot_id.clone(),
            timestamp: self.timestamp,
            distance: self.distance,
        }
    }
}

} // verus!
