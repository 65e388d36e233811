//! What holds of the tracker in every state its operations can reach.

use vstd::prelude::*;
use crate::history::{is_record_of, records_of};
use crate::model::{
    is_chronological_for, is_latest_of_its_robot, valid_robot_id, Operation, TrackingError,
    TrackingState,
};
use crate::query::{
    in_force, is_candidate, lemma_distance_of_record_in_force, lemma_distance_without_candidate,
    supersedes,
};
use crate::records::HistoryEntry;

verus! {

/// Some record of a robot with history is its latest.
pub proof fn lemma_latest_record_exists(history: Seq<HistoryEntry>, robot_id: Seq<char>, i: int) -> (latest:
    int)
    requires
        is_record_of(history, robot_id, i),
    ensures
        i <= latest,
        is_record_of(history, robot_id, latest),
        is_latest_of_its_robot(history, latest),
    decreases history.len() - i,
{
    if exists|j: int| i < j && is_record_of(history, robot_id, j) {
        let j = choose|j: int| i < j && is_record_of(history, robot_id, j);
        lemma_latest_record_exists(history, robot_id, j)
    } else {
        i
    }
}

/// The empty state is consistent.
pub proof fn lemma_empty_is_consistent()
    ensures
        TrackingState::empty().consistent(),
{
}

/// Recording a mutation for a robot with a valid identifier keeps current
/// state and history in agreement.
pub proof fn lemma_record_keeps_consistency(
    state: TrackingState,
    robot_id: Seq<char>,
    distance: u64,
    now: int,
)
    requires
        state.consistent(),
        valid_robot_id(robot_id),
    ensures
        state.record(robot_id, distance, now).consistent(),
{
    let next = state.record(robot_id, distance, now);
    let added = state.history.len() as int;
    assert(is_record_of(next.history, robot_id, added));
    assert forall|id: Seq<char>| #[trigger] next.current.contains_key(id) implies exists|i: int|
        is_record_of(next.history, id, i) by {
        if id != robot_id {
            let i = choose|i: int| is_record_of(state.history, id, i);
            assert(is_record_of(next.history, id, i));
        }
    }
    assert forall|i: int| #[trigger] is_latest_of_its_robot(next.history, i) implies {
        &&& next.current.contains_key(next.history[i].robot_id)
        &&& next.current[next.history[i].robot_id] == next.history[i].distance
    } by {
        if i < added {
            assert(!is_record_of(next.history, next.history[i].robot_id, added));
            assert forall|j: int| i < j < state.history.len() implies !is_record_of(
                state.history,
                state.history[i].robot_id,
                j,
            ) by {
                assert(!is_record_of(next.history, next.history[i].robot_id, j));
            }
            assert(is_latest_of_its_robot(state.history, i));
        }
    }
}

/// In a consistent state, a robot with a current record has a history
/// record that is its latest and carries the current distance.
pub proof fn lemma_current_record_has_history(state: TrackingState, robot_id: Seq<char>) -> (latest:
    int)
    requires
        state.consistent(),
        state.current.contains_key(robot_id),
    ensures
        is_record_of(state.history, robot_id, latest),
        is_latest_of_its_robot(state.history, latest),
        state.history[latest].distance == state.current_distance(robot_id),
{
    let some = choose|i: int| is_record_of(state.history, robot_id, i);
    lemma_latest_record_exists(state.history, robot_id, some)
}

/// After the distance of a robot was set, its current distance is the one
/// that was set.
pub proof fn lemma_set_then_current(
    state: TrackingState,
    robot_id: Seq<char>,
    distance: u64,
    now: int,
)
    requires
        valid_robot_id(robot_id),
    ensures
        state.set_distance(robot_id, distance, now) matches Ok(next) && next.current_distance(
            robot_id,
        ) == distance,
{
}

/// Two increments of a robot, starting from the empty state, leave it with
/// the sum of the two as current distance, provided the sum fits in 64 bits.
pub proof fn lemma_increments_add_up(
    robot_id: Seq<char>,
    first: u64,
    second: u64,
    first_at: int,
    second_at: int,
)
    requires
        valid_robot_id(robot_id),
        first + second <= u64::MAX,
    ensures
        TrackingState::empty().increment_distance(robot_id, first, first_at) matches Ok(once)
            && once.increment_distance(robot_id, second, second_at) matches Ok(twice)
            && twice.current_distance(robot_id) == first + second,
{
}

/// An increment whose sum does not fit in 64 bits is refused as an
/// arithmetic overflow, and the state, current distances and history alike,
/// stays as it was.
pub proof fn lemma_overflow_is_refused(
    state: TrackingState,
    robot_id: Seq<char>,
    increment: u64,
    now: int,
)
    requires
        valid_robot_id(robot_id),
        state.current_distance(robot_id) + increment > u64::MAX,
    ensures
        state.increment_distance(robot_id, increment, now) == Err::<TrackingState, TrackingError>(
            TrackingError::ArithmeticOverflow,
        ),
        state.apply(Operation::IncrementDistance { robot_id, increment, now }) == state,
{
}

/// A mutation addressed to the empty identifier is refused as invalid, and
/// the state stays as it was.
pub proof fn lemma_empty_identifier_is_refused(
    state: TrackingState,
    robot_id: Seq<char>,
    amount: u64,
    now: int,
)
    requires
        !valid_robot_id(robot_id),
    ensures
        state.set_distance(robot_id, amount, now) == Err::<TrackingState, TrackingError>(
            TrackingError::ValidationError,
        ),
        state.increment_distance(robot_id, amount, now) == Err::<TrackingState, TrackingError>(
            TrackingError::ValidationError,
        ),
        state.apply(Operation::SetDistance { robot_id, distance: amount, now }) == state,
        state.apply(Operation::IncrementDistance { robot_id, increment: amount, now }) == state,
{
}

/// A robot that was never mutated has current distance zero.
pub proof fn lemma_never_mutated_reads_zero(state: TrackingState, robot_id: Seq<char>)
    requires
        state.consistent(),
        forall|i: int| !is_record_of(state.history, robot_id, i),
    ensures
        state.current_distance(robot_id) == 0,
{
}

/// Before any mutation, every robot has current distance zero.
pub proof fn lemma_empty_reads_zero(robot_id: Seq<char>)
    ensures
        TrackingState::empty().current_distance(robot_id) == 0,
{
}

/// An instant that precedes all history of a robot sees distance zero.
pub proof fn lemma_before_all_history_reads_zero(
    state: TrackingState,
    robot_id: Seq<char>,
    target: int,
)
    requires
        forall|i: int|
            is_record_of(state.history, robot_id, i) ==> target < state.history[i].timestamp,
    ensures
        state.distance_as_of(robot_id, target) == 0,
{
    lemma_distance_without_candidate(state.history, robot_id, target);
}

/// An instant at or after the latest mutation of a robot sees the robot's
/// current distance, provided the robot's records are in chronological
/// order.
pub proof fn lemma_at_or_after_latest_reads_current(
    state: TrackingState,
    robot_id: Seq<char>,
    target: int,
)
    requires
        state.consistent(),
        is_chronological_for(state.history, robot_id),
        forall|i: int|
            is_record_of(state.history, robot_id, i) && is_latest_of_its_robot(state.history, i)
                ==> state.history[i].timestamp <= target,
    ensures
        state.distance_as_of(robot_id, target) == state.current_distance(robot_id),
{
    let history = state.history;
    if exists|i: int| is_record_of(history, robot_id, i) {
        let some = choose|i: int| is_record_of(history, robot_id, i);
        let latest = lemma_latest_record_exists(history, robot_id, some);
        assert forall|j: int| #[trigger] is_candidate(history, robot_id, target, j) implies supersedes(
            history,
            latest,
            j,
        ) by {
            if latest < j {
                assert(!is_record_of(history, history[latest].robot_id, j));
            }
        }
        assert(in_force(history, robot_id, target, latest));
        lemma_distance_of_record_in_force(history, robot_id, target, latest);
    } else {
        lemma_distance_without_candidate(history, robot_id, target);
    }
}

/// Recording a mutation at an instant not before the robot's earlier
/// records keeps the robot's records in chronological order; the records of
/// any other robot stay as they were.
pub proof fn lemma_record_keeps_chronology(
    state: TrackingState,
    robot_id: Seq<char>,
    distance: u64,
    now: int,
    observed: Seq<char>,
)
    requires
        is_chronological_for(state.history, observed),
        observed == robot_id ==> forall|i: int|
            is_record_of(state.history, robot_id, i) ==> state.history[i].timestamp <= now,
    ensures
        is_chronological_for(state.record(robot_id, distance, now).history, observed),
{
    let next = state.record(robot_id, distance, now).history;
    assert forall|i: int, j: int|
        i < j && is_record_of(next, observed, i) && is_record_of(
            next,
            observed,
            j,
        ) implies next[i].timestamp <= next[j].timestamp by {
        assert(is_record_of(state.history, observed, i));
        if j < state.history.len() {
            assert(is_record_of(state.history, observed, j));
        }
    }
}

/// Serving an operation never removes or changes a history record, and
/// never lowers the number of records of any robot.
pub proof fn lemma_operation_only_appends(
    state: TrackingState,
    operation: Operation,
    robot_id: Seq<char>,
)
    ensures
        state.history.is_prefix_of(state.apply(operation).history),
        records_of(state.history, robot_id).len() <= records_of(
            state.apply(operation).history,
            robot_id,
        ).len(),
{
    let next = state.apply(operation).history;
    if next != state.history {
        let added = next.last();
        assert(next =~= state.history.push(added));
        state.history.lemma_filter_len_push(
            |entry: HistoryEntry| entry.robot_id == robot_id,
            added,
        );
    }
}

/// Across any sequence of operations the history only grows: what was
/// recorded stays, in place, and the number of records of any robot never
/// decreases.
pub proof fn lemma_history_only_grows(
    state: TrackingState,
    operations: Seq<Operation>,
    robot_id: Seq<char>,
)
    ensures
        state.history.is_prefix_of(state.apply_all(operations).history),
        records_of(state.history, robot_id).len() <= records_of(
            state.apply_all(operations).history,
            robot_id,
        ).len(),
    decreases operations.len(),
{
    if operations.len() > 0 {
        let before = state.apply_all(operations.drop_last());
        lemma_history_only_grows(state, operations.drop_last(), robot_id);
        lemma_operation_only_appends(before, operations.last(), robot_id);
    }
}

/// Across any sequence of operations, current state and history stay in
/// agreement.
pub proof fn lemma_operations_keep_consistency(state: TrackingState, operations: Seq<Operation>)
    requires
        state.consistent(),
    ensures
        state.apply_all(operations).consistent(),
    decreases operations.len(),
{
    if operations.len() > 0 {
        let before = state.apply_all(operations.drop_last());
        lemma_operations_keep_consistency(state, operations.drop_last());
        match operations.last() {
            Operation::SetDistance { robot_id, distance, now } => {
                if valid_robot_id(robot_id) {
                    lemma_record_keeps_consistency(before, robot_id, distance, now);
                }
            },
            Operation::IncrementDistance { robot_id, increment, now } => {
                if valid_robot_id(robot_id) && before.current_distance(robot_id) + increment
                    <= u64::MAX {
                    lemma_record_keeps_consistency(
                        before,
                        robot_id,
                        (before.current_distance(robot_id) + increment) as u64,
                        now,
                    );
                }
            },
            _ => {},
        }
    }
}

/// Reads change nothing: after any sequence of reads the state is the one
/// before them, so a read that is repeated answers as it did the first time.
pub proof fn lemma_reads_change_nothing(
    state: TrackingState,
    reads: Seq<Operation>,
    robot_id: Seq<char>,
    target: int,
)
    requires
        forall|i: int| 0 <= i < reads.len() ==> reads[i].is_read(),
    ensures
        state.apply_all(reads) == state,
        state.apply_all(reads).current_distance(robot_id) == state.current_distance(robot_id),
        state.apply_all(reads).distance_as_of(robot_id, target) == state.distance_as_of(
            robot_id,
            target,
        ),
    decreases reads.len(),
{
    if reads.len() > 0 {
        lemma_reads_change_nothing(state, reads.drop_last(), robot_id, target);
    }
}

} // verus!
