//! The operations of the tracker.

use vstd::prelude::*;
use crate::history::HistoryLog;
use crate::model::{valid_robot_id, Operation, TrackingError, TrackingState};
use crate::query::select_as_of;
use crate::status::{render_status, status_line};
use crate::store::CurrentStateStore;
use crate::theorems::lemma_record_keeps_consistency;
use crate::timestamp::Timestamp;

verus! {

/// Current state and history of all robots, mutated together.
///
/// Its view is the [`TrackingState`] made of the views of the two stores.
pub struct TrackingService {
    current: CurrentStateStore,
    history: HistoryLog,
}

impl View for TrackingService {
    type V = TrackingState;

    closed spec fn view(&self) -> TrackingState {
        TrackingState { current: self.current@, history: self.history@ }
    }
}

impl TrackingService {
    /// The store of current distances holds at most one record per robot.
    pub closed spec fn store_wf(self) -> bool {
        self.current.wf()
    }

    /// The store is well formed, and current state and history agree.
    pub open spec fn wf(self) -> bool {
        self.store_wf() && self@.consistent()
    }

    /// The service before any mutation.
    pub fn new() -> (service: TrackingService)
        ensures
            service.wf(),
            service@ == TrackingState::empty(),
    {
        TrackingService { current: CurrentStateStore::new(), history: HistoryLog::new() }
    }

    /// The store of current distances.
    pub fn current(&self) -> (store: &CurrentStateStore)
        ensures
            store@ == self@.current,
            self.store_wf() ==> store.wf(),
    {
        &self.current
    }

    /// The log of all mutations.
    pub fn history(&self) -> (log: &HistoryLog)
        ensures
            log@ == self@.history,
    {
        &self.history
    }

    /// The current distance of `robot_id`, zero where it has no record.
    fn distance_of(&self, robot_id: &String) -> (distance: u64)
        ensures
            distance == self@.current_distance(robot_id@),
    {
        match self.current.get(robot_id) {
            Some(distance) => distance,
            None => 0,
        }
    }

    /// Replaces the current record of `robot_id` and appends the matching
    /// history record.
    fn record(&mut self, now: Timestamp, robot_id: String, distance: u64)
        requires
            valid_robot_id(robot_id@),
        ensures
            final(self)@ == old(self)@.record(robot_id@, distance, now@),
            old(self).wf() ==> final(self).wf(),
    {
        proof {
            if self.wf() {
                lemma_record_keeps_consistency(self@, robot_id@, distance, now@);
            }
        }
        self.current.set(robot_id.clone(), distance);
        self.history.append(robot_id, now, distance);
    }
}

/// Sets the distance of `robot_id` to `distance` at the instant `now`.
///
/// An empty identifier is refused with `ValidationError` and nothing
/// changes. Otherwise the robot's current distance becomes `distance` and
/// one history record with `now` and `distance` is appended.
pub fn update_distance(
    ctx: &mut TrackingService,
    now: Timestamp,
    robot_id: String,
    distance: u64,
) -> (outcome: Result<(), TrackingError>)
    ensures
        old(ctx).wf() ==> final(ctx).wf(),
        match old(ctx)@.set_distance(robot_id@, distance, now@) {
            Ok(next) => outcome is Ok && final(ctx)@ == next,
            Err(error) => outcome == Err::<(), TrackingError>(error) && final(ctx)@ == old(ctx)@,
        },
        final(ctx)@ == old(ctx)@.apply(
            Operation::SetDistance { robot_id: robot_id@, distance, now: now@ },
        ),
{
    if robot_id.as_str().is_empty() {
        return Err(TrackingError::ValidationError);
    }
    ctx.record(now, robot_id, distance);
    Ok(())
}

/// Adds `increment` to the distance of `robot_id` at the instant `now`; a
/// robot without record counts as having distance zero.
///
/// An empty identifier is refused with `ValidationError`, a sum beyond the
/// 64-bit range with `ArithmeticOverflow`; in both cases nothing changes.
/// Otherwise the robot's current distance becomes the sum and one history
/// record with `now` and the sum is appended.
pub fn increment_distance(
    ctx: &mut TrackingService,
    now: Timestamp,
    robot_id: String,
    increment: u64,
) -> (outcome: Result<(), TrackingError>)
    ensures
        old(ctx).wf() ==> final(ctx).wf(),
        match old(ctx)@.increment_distance(robot_id@, increment, now@) {
            Ok(next) => outcome is Ok && final(ctx)@ == next,
            Err(error) => outcome == Err::<(), TrackingError>(error) && final(ctx)@ == old(ctx)@,
        },
        final(ctx)@ == old(ctx)@.apply(
            Operation::IncrementDistance { robot_id: robot_id@, increment, now: now@ },
        ),
{
    if robot_id.as_str().is_empty() {
        return Err(TrackingError::ValidationError);
    }
    match ctx.distance_of(&robot_id).checked_add(increment) {
        Some(new_distance) => {
            ctx.record(now, robot_id, new_distance);
            Ok(())
        },
        None => Err(TrackingError::ArithmeticOverflow),
    }
}

/// The status line of `robot_id`, which names the robot and its current
/// distance. Emitting the line is left to the caller.
pub fn say_hello(ctx: &TrackingService, robot_id: String) -> (line: String)
    ensures
        line@ == status_line(robot_id@, ctx@.current_distance(robot_id@)),
{
    let distance: u64 = ctx.distance_of(&robot_id);
    render_status(&robot_id, distance)
}

/// The current distance of `robot_id`; zero for a robot that was never
/// mutated.
pub fn get_distance(ctx: &TrackingService, robot_id: String) -> (distance: u64)
    ensures
        distance == ctx@.current_distance(robot_id@),
{
    ctx.distance_of(&robot_id)
}

/// The distance `robot_id` had at the instant `target_time`: that of the
/// robot's record with the greatest timestamp not after `target_time`, the
/// last inserted among records with that timestamp; zero where the robot has
/// no record that old.
pub fn get_distance_at_time(ctx: &TrackingService, robot_id: String, target_time: Timestamp) -> (distance:
    u64)
    ensures
        distance == ctx@.distance_as_of(robot_id@, target_time@),
{
    select_as_of(&ctx.history, &robot_id, target_time)
}

} // verus!
