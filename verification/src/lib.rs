//! Verified core of the Open Duck playground: the integer logic behind the
//! polynomial reference-motion table, the reference-motion viewer and the
//! training runner.
//!
//! - `filters`: the state and update of the low-pass action filter.
//! - `key_laws`: the order laws of keys kept in the standard ordered map.
//! - `order_key`: integer keys that order double bit patterns totally.
//! - `record_order`: the processing order of motion records.
//! - `motion_index`: validation of motion records and their lookup grid.
//! - `viewer`: keyboard commands and the pose sequencer of the viewer.
//! - `runner`: the runner's configuration, errors, sinks and file names.
//! - `renumbering`: renumbering the records renumbers the index and
//!   changes nothing else.

pub mod filters;
pub mod key_laws;
pub mod order_key;
pub mod record_order;
pub mod motion_index;
pub mod viewer;
pub mod runner;
pub mod renumbering;

pub use filters::ActionSmoother;
pub use motion_index::{grid_coefficients, index_records, MotionError, MotionIndex, RecordFacts};
pub use order_key::{order_key, velocity_key};
pub use record_order::record_order;
pub use runner::{
    checkpoint_names, checkpoint_names_at, format_timestamp, CheckpointNames, CheckpointSink,
    LocalTime, OnnxExporter,
    RunnerConfig, RunnerError,
};
pub use viewer::{
    command_for_key, imitation_index, key_command, reference_pose, AdvanceAction, KeyCommand,
    PoseSequencer, ViewerError,
};
