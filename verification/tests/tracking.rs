use robot_server::{
    get_distance, get_distance_at_time, increment_distance, say_hello, update_distance, Robot,
    RobotHistory, Timestamp, TrackingError, TrackingService,
};

fn at(micros: i64) -> Timestamp {
    Timestamp::from_micros_since_unix_epoch(micros)
}

fn id(name: &str) -> String {
    name.to_string()
}

fn distances(records: &[RobotHistory]) -> Vec<u64> {
    records.iter().map(|record| record.distance).collect()
}

fn instants(records: &[RobotHistory]) -> Vec<i64> {
    records.iter().map(|record| record.timestamp.to_micros_since_unix_epoch()).collect()
}

// Test that update_distance correctly sets a robot's distance
#[test]
fn test_update_distance_logic() {
    // For a new robot, the distance should be set to the provided value
    let mut service = TrackingService::new();
    update_distance(&mut service, at(1), id("robot-a"), 100).unwrap();
    let new_distance = get_distance(&service, id("robot-a"));
    assert_eq!(new_distance, 100);

    // For an existing robot, the distance should be updated to the new value
    let mut service = TrackingService::new();
    update_distance(&mut service, at(1), id("robot-a"), 50).unwrap();
    let old_distance = get_distance(&service, id("robot-a"));
    update_distance(&mut service, at(2), id("robot-a"), 100).unwrap();
    let updated_distance = get_distance(&service, id("robot-a"));
    assert_eq!(updated_distance, 100);
    assert_ne!(old_distance, updated_distance);
}

// Test that increment_distance correctly increments a robot's distance
#[test]
fn test_increment_distance_logic() {
    // For a new robot, the distance should be set to the increment value
    let mut service = TrackingService::new();
    let increment = 50;
    increment_distance(&mut service, at(1), id("robot-a"), increment).unwrap();
    let new_distance = get_distance(&service, id("robot-a"));
    assert_eq!(new_distance, 50);

    // For an existing robot, the distance should be incremented
    let mut service = TrackingService::new();
    update_distance(&mut service, at(1), id("robot-a"), 50).unwrap();
    let increment = 50;
    increment_distance(&mut service, at(2), id("robot-a"), increment).unwrap();
    let new_distance = get_distance(&service, id("robot-a"));
    assert_eq!(new_distance, 100);
}

// Test that get_distance returns the correct distance
#[test]
fn test_get_distance_logic() {
    // For an existing robot, it should return the robot's distance
    let robot = Robot { robot_id: "robot-a".to_string(), distance: 100 };
    let mut service = TrackingService::new();
    update_distance(&mut service, at(1), robot.robot_id.clone(), robot.distance).unwrap();
    assert_eq!(get_distance(&service, robot.robot_id.clone()), 100);

    // For a nonexistent robot, it should return 0
    let default_distance = get_distance(&service, id("robot-b"));
    assert_eq!(default_distance, 0);
}

// Test that get_distance_at_time returns the correct historical distance
#[test]
fn test_get_distance_at_time_logic() {
    let mut service = TrackingService::new();
    update_distance(&mut service, at(1_000), id("robot-a"), 100).unwrap();
    update_distance(&mut service, at(2_000), id("robot-a"), 150).unwrap();

    // For a timestamp between entries, it should return the most recent entry before the timestamp
    let expected_distance = get_distance_at_time(&service, id("robot-a"), at(1_500));
    assert_eq!(expected_distance, 100);

    // For a timestamp before all entries, it should return 0
    let expected_distance = get_distance_at_time(&service, id("robot-a"), at(500));
    assert_eq!(expected_distance, 0);

    // For a timestamp after all entries, it should return the most recent entry
    let expected_distance = get_distance_at_time(&service, id("robot-a"), at(3_000));
    assert_eq!(expected_distance, 150);
}

// Test that say_hello doesn't panic
#[test]
fn test_say_hello_doesnt_panic() {
    let mut service = TrackingService::new();
    update_distance(&mut service, at(1), id("robot-a"), 100).unwrap();
    let line = say_hello(&service, id("robot-a"));
    assert!(line == "Hello, World! Robot robot-a has traveled 100 units.");
}

#[test]
fn set_then_read_returns_what_was_set() {
    let mut service = TrackingService::new();
    for (step, distance) in [0u64, 1, 42, u64::MAX].into_iter().enumerate() {
        update_distance(&mut service, at(step as i64), id("r"), distance).unwrap();
        assert_eq!(get_distance(&service, id("r")), distance);
    }
}

#[test]
fn set_replaces_and_leaves_other_robots_alone() {
    let mut service = TrackingService::new();
    update_distance(&mut service, at(1), id("a"), 5).unwrap();
    update_distance(&mut service, at(2), id("b"), 7).unwrap();
    update_distance(&mut service, at(3), id("a"), 9).unwrap();
    assert_eq!(get_distance(&service, id("a")), 9);
    assert_eq!(get_distance(&service, id("b")), 7);
    assert_eq!(service.current().get(&id("a")), Some(9));
    assert_eq!(service.current().get(&id("c")), None);
    assert_eq!(service.history().len(), 3);
}

#[test]
fn two_increments_from_empty_add_up() {
    let mut service = TrackingService::new();
    increment_distance(&mut service, at(1), id("r"), 1_000).unwrap();
    increment_distance(&mut service, at(2), id("r"), 234).unwrap();
    assert_eq!(get_distance(&service, id("r")), 1_234);
}

#[test]
fn never_mutated_robot_reads_zero() {
    let mut service = TrackingService::new();
    assert_eq!(get_distance(&service, id("ghost")), 0);
    update_distance(&mut service, at(1), id("other"), 3).unwrap();
    assert_eq!(get_distance(&service, id("ghost")), 0);
    assert_eq!(get_distance_at_time(&service, id("ghost"), at(i64::MAX)), 0);
    assert!(service.history().records_for(&id("ghost")).is_empty());
}

#[test]
fn instant_before_all_history_reads_zero() {
    let mut service = TrackingService::new();
    update_distance(&mut service, at(-50), id("r"), 8).unwrap();
    update_distance(&mut service, at(10), id("r"), 9).unwrap();
    assert_eq!(get_distance_at_time(&service, id("r"), at(-51)), 0);
    assert_eq!(get_distance_at_time(&service, id("r"), at(i64::MIN)), 0);
}

#[test]
fn instant_at_or_after_latest_mutation_reads_current() {
    let mut service = TrackingService::new();
    update_distance(&mut service, at(10), id("r"), 1).unwrap();
    increment_distance(&mut service, at(20), id("r"), 4).unwrap();
    update_distance(&mut service, at(15), id("s"), 77).unwrap();
    assert_eq!(get_distance_at_time(&service, id("r"), at(20)), 5);
    assert_eq!(get_distance_at_time(&service, id("r"), at(21)), 5);
    assert_eq!(get_distance_at_time(&service, id("r"), at(i64::MAX)), get_distance(&service, id("r")));
    assert_eq!(get_distance_at_time(&service, id("s"), at(20)), 77);
}

#[test]
fn three_sets_are_seen_at_their_instants() {
    let (t1, t2, t3) = (1_000, 2_000, 3_000);
    let mut service = TrackingService::new();
    update_distance(&mut service, at(t1), id("r1"), 100).unwrap();
    update_distance(&mut service, at(t2), id("r1"), 200).unwrap();
    update_distance(&mut service, at(t3), id("r1"), 300).unwrap();
    assert_eq!(get_distance_at_time(&service, id("r1"), at(t1)), 100);
    assert_eq!(get_distance_at_time(&service, id("r1"), at(t2)), 200);
    assert_eq!(get_distance_at_time(&service, id("r1"), at(t3)), 300);
    assert_eq!(get_distance_at_time(&service, id("r1"), at(t1 - 1)), 0);
    assert_eq!(get_distance_at_time(&service, id("r1"), at(0)), 0);
    assert_eq!(get_distance_at_time(&service, id("r1"), at(1_500)), 100);
}

#[test]
fn two_increments_leave_two_records() {
    let mut service = TrackingService::new();
    increment_distance(&mut service, at(10), id("r2"), 50).unwrap();
    increment_distance(&mut service, at(20), id("r2"), 25).unwrap();
    assert_eq!(get_distance(&service, id("r2")), 75);
    let records = service.history().records_for(&id("r2"));
    assert_eq!(records.len(), 2);
    assert_eq!(distances(&records), vec![50, 75]);
    assert_eq!(instants(&records), vec![10, 20]);
    assert!(records.iter().all(|record| record.robot_id == "r2"));
}

#[test]
fn overflowing_increment_is_refused_and_changes_nothing() {
    let mut service = TrackingService::new();
    update_distance(&mut service, at(1), id("r"), u64::MAX - 1).unwrap();
    assert_eq!(increment_distance(&mut service, at(2), id("r"), 2), Err(TrackingError::ArithmeticOverflow));
    assert_eq!(get_distance(&service, id("r")), u64::MAX - 1);
    assert_eq!(service.history().len(), 1);
    assert_eq!(get_distance_at_time(&service, id("r"), at(2)), u64::MAX - 1);
    // The largest sum that still fits is accepted.
    assert_eq!(increment_distance(&mut service, at(3), id("r"), 1), Ok(()));
    assert_eq!(get_distance(&service, id("r")), u64::MAX);
    assert_eq!(increment_distance(&mut service, at(4), id("r"), 1), Err(TrackingError::ArithmeticOverflow));
    assert_eq!(increment_distance(&mut service, at(5), id("r"), 0), Ok(()));
    assert_eq!(service.history().len(), 3);
}

#[test]
fn empty_identifier_is_refused_and_changes_nothing() {
    let mut service = TrackingService::new();
    assert_eq!(update_distance(&mut service, at(1), id(""), 5), Err(TrackingError::ValidationError));
    assert_eq!(increment_distance(&mut service, at(2), id(""), 5), Err(TrackingError::ValidationError));
    assert_eq!(service.history().len(), 0);
    assert_eq!(get_distance(&service, id("")), 0);
    assert_eq!(get_distance_at_time(&service, id(""), at(10)), 0);
}

#[test]
fn history_never_shrinks() {
    let mut service = TrackingService::new();
    let mut seen = 0;
    let steps: [(&str, u64, bool); 6] =
        [("a", 1, true), ("b", 2, false), ("a", u64::MAX, false), ("", 3, true), ("a", 4, true), ("b", 0, false)];
    for (step, (name, amount, set)) in steps.into_iter().enumerate() {
        let _ = if set {
            update_distance(&mut service, at(step as i64), id(name), amount)
        } else {
            increment_distance(&mut service, at(step as i64), id(name), amount)
        };
        let _ = get_distance(&service, id("a"));
        let _ = get_distance_at_time(&service, id("a"), at(step as i64));
        let count = service.history().records_for(&id("a")).len();
        assert!(count >= seen);
        seen = count;
    }
    assert_eq!(seen, 2);
    assert_eq!(service.history().len(), 4);
}

#[test]
fn reads_repeat_their_answer() {
    let mut service = TrackingService::new();
    update_distance(&mut service, at(5), id("r"), 11).unwrap();
    increment_distance(&mut service, at(6), id("r"), 1).unwrap();
    let first = get_distance(&service, id("r"));
    let second = get_distance(&service, id("r"));
    assert_eq!(first, 12);
    assert_eq!(first, second);
    let first = get_distance_at_time(&service, id("r"), at(5));
    let second = get_distance_at_time(&service, id("r"), at(5));
    assert_eq!(first, 11);
    assert_eq!(first, second);
    assert_eq!(say_hello(&service, id("r")), say_hello(&service, id("r")));
}

#[test]
fn equal_timestamps_resolve_to_the_last_inserted() {
    let mut service = TrackingService::new();
    update_distance(&mut service, at(7), id("r"), 1).unwrap();
    update_distance(&mut service, at(7), id("r"), 2).unwrap();
    update_distance(&mut service, at(7), id("q"), 99).unwrap();
    update_distance(&mut service, at(7), id("r"), 3).unwrap();
    assert_eq!(get_distance_at_time(&service, id("r"), at(7)), 3);
    assert_eq!(get_distance_at_time(&service, id("r"), at(8)), 3);
    assert_eq!(get_distance_at_time(&service, id("r"), at(6)), 0);
}

#[test]
fn out_of_order_timestamps_resolve_by_timestamp() {
    let mut service = TrackingService::new();
    update_distance(&mut service, at(10), id("r"), 100).unwrap();
    update_distance(&mut service, at(5), id("r"), 200).unwrap();
    // The record with the greatest timestamp not after the target governs,
    // whatever the insertion order.
    assert_eq!(get_distance_at_time(&service, id("r"), at(10)), 100);
    assert_eq!(get_distance_at_time(&service, id("r"), at(7)), 200);
    assert_eq!(get_distance_at_time(&service, id("r"), at(4)), 0);
    assert_eq!(get_distance(&service, id("r")), 200);
}

#[test]
fn status_line_names_robot_and_distance() {
    let mut service = TrackingService::new();
    assert_eq!(say_hello(&service, id("r0")), "Hello, World! Robot r0 has traveled 0 units.");
    update_distance(&mut service, at(1), id("r0"), 7).unwrap();
    assert_eq!(say_hello(&service, id("r0")), "Hello, World! Robot r0 has traveled 7 units.");
    update_distance(&mut service, at(2), id("r0"), 10).unwrap();
    assert_eq!(say_hello(&service, id("r0")), "Hello, World! Robot r0 has traveled 10 units.");
    update_distance(&mut service, at(3), id("r0"), 9_007_199_254_740_993).unwrap();
    assert_eq!(say_hello(&service, id("r0")), "Hello, World! Robot r0 has traveled 9007199254740993 units.");
    update_distance(&mut service, at(4), id("r0"), u64::MAX).unwrap();
    assert_eq!(
        say_hello(&service, id("r0")),
        "Hello, World! Robot r0 has traveled 18446744073709551615 units."
    );
    assert_eq!(say_hello(&service, id("")), "Hello, World! Robot  has traveled 0 units.");
}

#[test]
fn robots_do_not_interfere() {
    let mut service = TrackingService::new();
    update_distance(&mut service, at(10), id("a"), 1).unwrap();
    update_distance(&mut service, at(20), id("b"), 2).unwrap();
    increment_distance(&mut service, at(30), id("a"), 10).unwrap();
    update_distance(&mut service, at(40), id("ab"), 3).unwrap();
    increment_distance(&mut service, at(50), id("b"), 20).unwrap();
    assert_eq!(get_distance(&service, id("a")), 11);
    assert_eq!(get_distance(&service, id("b")), 22);
    assert_eq!(get_distance(&service, id("ab")), 3);
    assert_eq!(get_distance_at_time(&service, id("a"), at(29)), 1);
    assert_eq!(get_distance_at_time(&service, id("a"), at(30)), 11);
    assert_eq!(get_distance_at_time(&service, id("b"), at(19)), 0);
    assert_eq!(get_distance_at_time(&service, id("b"), at(49)), 2);
    assert_eq!(get_distance_at_time(&service, id("b"), at(50)), 22);
    assert_eq!(get_distance_at_time(&service, id("ab"), at(39)), 0);
    assert_eq!(distances(&service.history().records_for(&id("a"))), vec![1, 11]);
    assert_eq!(distances(&service.history().records_for(&id("b"))), vec![2, 22]);
    assert_eq!(distances(&service.history().records_for(&id("ab"))), vec![3]);
}

#[test]
fn identifiers_are_opaque_text() {
    let mut service = TrackingService::new();
    let long = "x".repeat(10_000);
    update_distance(&mut service, at(1), id("r\u{00e9}sum\u{00e9}"), 1).unwrap();
    update_distance(&mut service, at(2), id("resume"), 2).unwrap();
    update_distance(&mut service, at(3), id(" "), 3).unwrap();
    update_distance(&mut service, at(4), long.clone(), 4).unwrap();
    assert_eq!(get_distance(&service, id("r\u{00e9}sum\u{00e9}")), 1);
    assert_eq!(get_distance(&service, id("resume")), 2);
    assert_eq!(get_distance(&service, id(" ")), 3);
    assert_eq!(get_distance(&service, long), 4);
    assert_eq!(get_distance(&service, id("Resume")), 0);
    assert_eq!(
        say_hello(&service, id("r\u{00e9}sum\u{00e9}")),
        "Hello, World! Robot r\u{00e9}sum\u{00e9} has traveled 1 units."
    );
}

#[test]
fn every_accepted_mutation_leaves_one_record_with_the_current_distance() {
    let mut service = TrackingService::new();
    let mut expected = 0;
    for step in 0..20u64 {
        let accepted = if step % 3 == 0 {
            update_distance(&mut service, at(step as i64), id("r"), step * 7)
        } else {
            increment_distance(&mut service, at(step as i64), id("r"), step)
        };
        assert_eq!(accepted, Ok(()));
        expected += 1;
        let records = service.history().records_for(&id("r"));
        assert_eq!(records.len(), expected);
        let last = records.last().unwrap();
        assert_eq!(last.distance, get_distance(&service, id("r")));
        assert_eq!(last.timestamp, at(step as i64));
        assert_eq!(get_distance_at_time(&service, id("r"), at(step as i64)), last.distance);
    }
    assert_eq!(get_distance(&service, id("r")), 18 * 7 + 19);
}

#[test]
fn replaying_history_rebuilds_the_state() {
    let mut service = TrackingService::new();
    increment_distance(&mut service, at(1), id("a"), 5).unwrap();
    update_distance(&mut service, at(2), id("b"), 9).unwrap();
    increment_distance(&mut service, at(3), id("a"), 6).unwrap();
    let mut replayed = TrackingService::new();
    let mut index = 0;
    while let Some(record) = service.history().get(index) {
        update_distance(&mut replayed, record.timestamp, record.robot_id.clone(), record.distance).unwrap();
        index += 1;
    }
    assert_eq!(index, 3);
    for name in ["a", "b", "c"] {
        assert_eq!(get_distance(&replayed, id(name)), get_distance(&service, id(name)));
        for instant in 0..5 {
            assert_eq!(
                get_distance_at_time(&replayed, id(name), at(instant)),
                get_distance_at_time(&service, id(name), at(instant))
            );
        }
    }
}
