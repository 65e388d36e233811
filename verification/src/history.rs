//! The append-only log of mutations.

use vstd::prelude::*;
use crate::records::{HistoryEntry, RobotHistory};
use crate::timestamp::Timestamp;

verus! {

/// Record `i` of `history` belongs to `robot_id`.
pub open spec fn is_record_of(history: Seq<HistoryEntry>, robot_id: Seq<char>, i: int) -> bool {
    0 <= i < history.len() && history[i].robot_id == robot_id
}

/// The records of `robot_id` in `history`, in insertion order.
pub open spec fn records_of(history: Seq<HistoryEntry>, robot_id: Seq<char>) -> Seq<HistoryEntry> {
    history.filter(|entry: HistoryEntry| entry.robot_id == robot_id)
}

/// Every mutation ever accepted, in the order of acceptance.
///
/// Its view is the sequence of entries in insertion order. Records are only
/// ever added at the end; none is changed or removed.
pub struct HistoryLog {
    records: Vec<RobotHistory>,
}

impl View for HistoryLog {
    type V = Seq<HistoryEntry>;

    closed spec fn view(&self) -> Seq<HistoryEntry> {
        self.records@.map_values(|record: RobotHistory| record@)
    }
}

impl HistoryLog {
    /// The log without any record.
    pub fn new() -> (log: HistoryLog)
        ensures
            log@ == Seq::<HistoryEntry>::empty(),
    {
        let log = HistoryLog { records: Vec::new() };
        assert(log@ =~= Seq::<HistoryEntry>::empty());
        log
    }

    /// Number of records in the log.
    pub fn len(&self) -> (n: usize)
        ensures
            n == self@.len(),
    {
        self.records.len()
    }

    /// The record at position `index`, counted from the oldest, or `None`
    /// where the log has no such position.
    pub fn get(&self, index: usize) -> (found: Option<&RobotHistory>)
        ensures
            match found {
                Some(record) => index < self@.len() && record@ == self@[index as int],
                None => index >= self@.len(),
            },
    {
        if index < self.records.len() {
            Some(&self.records[index])
        } else {
            None
        }
    }

    /// Adds one record at the end of the log.
    pub fn append(&mut self, robot_id: String, timestamp: Timestamp, distance: u64)
        ensures
            final(self)@ == old(self)@.push(
                HistoryEntry { robot_id: robot_id@, timestamp: timestamp@, distance },
            ),
    {
        self.records.push(RobotHistory { robot_id, timestamp, distance });
        assert(self@ =~= old(self)@.push(
            HistoryEntry { robot_id: robot_id@, timestamp: timestamp@, distance },
        ));
    }

    /// Copies of the records of `robot_id`, in insertion order.
    pub fn records_for(&self, robot_id: &String) -> (records: Vec<RobotHistory>)
        ensures
            records@.map_values(|record: RobotHistory| record@) == records_of(self@, robot_id@),
    {
        let ghost wanted = |entry: HistoryEntry| entry.robot_id == robot_id@;
        let mut records: Vec<RobotHistory> = Vec::new();
        let mut i: usize = 0;
        proof {
            reveal(Seq::filter);
            assert(self@.take(0) =~= Seq::<HistoryEntry>::empty());
        }
        while i < self.records.len()
            invariant
                i <= self.records.len(),
                self.records.len() == self@.len(),
                wanted == |entry: HistoryEntry| entry.robot_id == robot_id@,
                records@.map_values(|record: RobotHistory| record@) == self@.take(i as int).filter(
                    wanted,
                ),
            decreases self.records.len() - i,
        {
            let ghost copied = records@.map_values(|record: RobotHistory| record@);
            proof {
                self@.lemma_take_succ_push(i as int);
                self@.take(i as int).lemma_filter_push(self@[i as int], wanted);
            }
            if self.records[i].robot_id == *robot_id {
                let copy = self.records[i].clone();
                records.push(copy);
                assert(records@.map_values(|record: RobotHistory| record@) =~= copied.push(
                    self@[i as int],
                ));
            }
            i += 1;
        }
        proof {
            self@.lemma_take_len();
        }
        records
    }
}

} // verus!
