//! Per-robot distance tracking with a timestamped, append-only history.
//!
//! Every accepted mutation replaces the robot's current distance and appends
//! exactly one history record; point-in-time queries select the record that
//! was in force at the requested instant.

pub mod history;
pub mod model;
pub mod query;
pub mod records;
pub mod service;
pub mod status;
pub mod store;
pub mod theorems;
pub mod timestamp;

pub use history::HistoryLog;
pub use model::{Operation, TrackingError, TrackingState};
pub use records::{HistoryEntry, Robot, RobotHistory};
pub use service::{
    get_distance, get_distance_at_time, increment_distance, say_hello, update_distance,
    TrackingService,
};
pub use store::CurrentStateStore;
pub use timestamp::Timestamp;
