//! Point-in-time queries over the history log.

use vstd::prelude::*;
use crate::history::{is_record_of, records_of, HistoryLog};
use crate::records::HistoryEntry;
use crate::timestamp::Timestamp;

verus! {

/// Record `i` of `history` belongs to `robot_id` and was written at or
/// before `target`.
pub open spec fn is_candidate(
    history: Seq<HistoryEntry>,
    robot_id: Seq<char>,
    target: int,
    i: int,
) -> bool {
    is_record_of(history, robot_id, i) && history[i].timestamp <= target
}

/// Record `i` is at least as recent as record `j`: it carries a later
/// timestamp, or the same timestamp and was not inserted before `j`.
pub open spec fn supersedes(history: Seq<HistoryEntry>, i: int, j: int) -> bool {
    ||| history[j].timestamp < history[i].timestamp
    ||| (history[j].timestamp == history[i].timestamp && j <= i)
}

/// Record `i` is the one in force for `robot_id` at `target`: a candidate
/// that is at least as recent as every candidate.
pub open spec fn in_force(
    history: Seq<HistoryEntry>,
    robot_id: Seq<char>,
    target: int,
    i: int,
) -> bool {
    &&& is_candidate(history, robot_id, target, i)
    &&& forall|j: int| #[trigger]
        is_candidate(history, robot_id, target, j) ==> supersedes(history, i, j)
}

/// The record in force for `robot_id` at `target`, or `None` where no record
/// of the robot is as old as `target`.
pub open spec fn entry_as_of(history: Seq<HistoryEntry>, robot_id: Seq<char>, target: int) -> Option<
    HistoryEntry,
> {
    if exists|i: int| in_force(history, robot_id, target, i) {
        Some(history[choose|i: int| in_force(history, robot_id, target, i)])
    } else {
        None
    }
}

/// The distance `robot_id` had at `target`: that of the record in force, or
/// zero where no record of the robot is as old as `target`.
pub open spec fn distance_as_of(history: Seq<HistoryEntry>, robot_id: Seq<char>, target: int) -> u64 {
    match entry_as_of(history, robot_id, target) {
        Some(entry) => entry.distance,
        None => 0,
    }
}

/// At most one record is in force for a robot at an instant.
pub proof fn lemma_in_force_unique(
    history: Seq<HistoryEntry>,
    robot_id: Seq<char>,
    target: int,
    i: int,
    j: int,
)
    requires
        in_force(history, robot_id, target, i),
        in_force(history, robot_id, target, j),
    ensures
        i == j,
{
    assert(supersedes(history, i, j));
    assert(supersedes(history, j, i));
}

/// The query answers with the distance of the record in force.
pub proof fn lemma_distance_of_record_in_force(
    history: Seq<HistoryEntry>,
    robot_id: Seq<char>,
    target: int,
    i: int,
)
    requires
        in_force(history, robot_id, target, i),
    ensures
        entry_as_of(history, robot_id, target) == Some(history[i]),
        distance_as_of(history, robot_id, target) == history[i].distance,
{
    let chosen = choose|k: int| in_force(history, robot_id, target, k);
    lemma_in_force_unique(history, robot_id, target, i, chosen);
}

/// Without a candidate the query answers zero.
pub proof fn lemma_distance_without_candidate(
    history: Seq<HistoryEntry>,
    robot_id: Seq<char>,
    target: int,
)
    requires
        forall|i: int| !is_candidate(history, robot_id, target, i),
    ensures
        entry_as_of(history, robot_id, target) is None,
        distance_as_of(history, robot_id, target) == 0,
{
}

/// Among the first `n` records, one that is a candidate is at least as
/// recent as every candidate, provided there is a candidate among them.
proof fn lemma_most_recent_within(
    history: Seq<HistoryEntry>,
    robot_id: Seq<char>,
    target: int,
    n: int,
) -> (best: int)
    requires
        0 <= n <= history.len(),
        exists|k: int| 0 <= k < n && is_candidate(history, robot_id, target, k),
    ensures
        0 <= best < n,
        is_candidate(history, robot_id, target, best),
        forall|j: int|
            0 <= j < n && #[trigger] is_candidate(history, robot_id, target, j) ==> supersedes(
                history,
                best,
                j,
            ),
    decreases n,
{
    if exists|k: int| 0 <= k < n - 1 && is_candidate(history, robot_id, target, k) {
        let earlier = lemma_most_recent_within(history, robot_id, target, n - 1);
        if is_candidate(history, robot_id, target, n - 1) && history[earlier].timestamp
            <= history[n - 1].timestamp {
            n - 1
        } else {
            earlier
        }
    } else {
        n - 1
    }
}

/// Where a robot has a record as old as `target`, one of its records is in
/// force at `target`.
pub proof fn lemma_record_in_force_exists(
    history: Seq<HistoryEntry>,
    robot_id: Seq<char>,
    target: int,
    i: int,
) -> (chosen: int)
    requires
        is_candidate(history, robot_id, target, i),
    ensures
        in_force(history, robot_id, target, chosen),
        distance_as_of(history, robot_id, target) == history[chosen].distance,
{
    let chosen = lemma_most_recent_within(history, robot_id, target, history.len() as int);
    lemma_distance_of_record_in_force(history, robot_id, target, chosen);
    chosen
}

/// What one more record does to the record in force: the new record takes
/// over where it is a candidate and no older than the record in force so
/// far; otherwise the record in force stays.
pub proof fn lemma_entry_as_of_push(
    history: Seq<HistoryEntry>,
    added: HistoryEntry,
    robot_id: Seq<char>,
    target: int,
)
    ensures
        entry_as_of(history.push(added), robot_id, target) == (if added.robot_id == robot_id
            && added.timestamp <= target && (entry_as_of(history, robot_id, target) matches Some(
            held,
        ) ==> held.timestamp <= added.timestamp) {
            Some(added)
        } else {
            entry_as_of(history, robot_id, target)
        }),
{
    let longer = history.push(added);
    let n = history.len() as int;
    assert forall|j: int| j != n implies is_candidate(longer, robot_id, target, j) == is_candidate(
        history,
        robot_id,
        target,
        j,
    ) by {}
    if exists|k: int| is_candidate(history, robot_id, target, k) {
        let some = choose|k: int| is_candidate(history, robot_id, target, k);
        let held = lemma_record_in_force_exists(history, robot_id, target, some);
        if is_candidate(longer, robot_id, target, n) && history[held].timestamp
            <= added.timestamp {
            assert forall|j: int| #[trigger]
                is_candidate(longer, robot_id, target, j) implies supersedes(longer, n, j) by {
                if j != n {
                    assert(supersedes(history, held, j));
                }
            }
            lemma_distance_of_record_in_force(longer, robot_id, target, n);
        } else {
            assert forall|j: int| #[trigger]
                is_candidate(longer, robot_id, target, j) implies supersedes(longer, held, j) by {
                if j != n {
                    assert(supersedes(history, held, j));
                }
            }
            lemma_distance_of_record_in_force(longer, robot_id, target, held);
        }
    } else {
        lemma_distance_without_candidate(history, robot_id, target);
        if is_candidate(longer, robot_id, target, n) {
            assert forall|j: int| #[trigger]
                is_candidate(longer, robot_id, target, j) implies supersedes(longer, n, j) by {
                assert(j == n);
            }
            lemma_distance_of_record_in_force(longer, robot_id, target, n);
        } else {
            lemma_distance_without_candidate(longer, robot_id, target);
        }
    }
}

/// The query answers from the robot's own records alone: all records and
/// the records of the robot, in insertion order, give the same answer.
pub proof fn lemma_query_reads_own_records(
    history: Seq<HistoryEntry>,
    robot_id: Seq<char>,
    target: int,
)
    ensures
        entry_as_of(history, robot_id, target) == entry_as_of(
            records_of(history, robot_id),
            robot_id,
            target,
        ),
        distance_as_of(history, robot_id, target) == distance_as_of(
            records_of(history, robot_id),
            robot_id,
            target,
        ),
    decreases history.len(),
{
    if history.len() == 0 {
        reveal(Seq::filter);
        lemma_distance_without_candidate(history, robot_id, target);
        lemma_distance_without_candidate(records_of(history, robot_id), robot_id, target);
    } else {
        let shorter = history.drop_last();
        let added = history.last();
        assert(history =~= shorter.push(added));
        lemma_query_reads_own_records(shorter, robot_id, target);
        shorter.lemma_filter_push(added, |entry: HistoryEntry| entry.robot_id == robot_id);
        lemma_entry_as_of_push(shorter, added, robot_id, target);
        if added.robot_id == robot_id {
            lemma_entry_as_of_push(records_of(shorter, robot_id), added, robot_id, target);
        }
    }
}

/// The distance `robot_id` had at `target`, by one pass over the log.
pub fn select_as_of(log: &HistoryLog, robot_id: &String, target: Timestamp) -> (distance: u64)
    ensures
        distance == distance_as_of(log@, robot_id@, target@),
{
    let limit: i64 = target.to_micros_since_unix_epoch();
    let n: usize = log.len();
    let mut found: bool = false;
    let mut newest: i64 = 0;
    let mut distance: u64 = 0;
    let ghost mut best: int = 0;
    let mut i: usize = 0;
    while i < n
        invariant
            i <= n,
            n == log@.len(),
            limit == target@,
            !found ==> distance == 0 && forall|j: int|
                0 <= j < i ==> !is_candidate(log@, robot_id@, target@, j),
            found ==> {
                &&& 0 <= best < i
                &&& is_candidate(log@, robot_id@, target@, best)
                &&& newest == log@[best].timestamp
                &&& distance == log@[best].distance
                &&& forall|j: int|
                    0 <= j < i && #[trigger] is_candidate(log@, robot_id@, target@, j)
                        ==> supersedes(log@, best, j)
            },
        decreases n - i,
    {
        if let Some(record) = log.get(i) {
            let at: i64 = record.timestamp.to_micros_since_unix_epoch();
            if record.robot_id == *robot_id && at <= limit && (!found || newest <= at) {
                found = true;
                newest = at;
                distance = record.distance;
                proof {
                    best = i as int;
                }
            }
        }
        i += 1;
    }
    proof {
        if found {
            lemma_distance_of_record_in_force(log@, robot_id@, target@, best);
        } else {
            lemma_distance_without_candidate(log@, robot_id@, target@);
        }
    }
    distance
}

} // verus!
